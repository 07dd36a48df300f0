//! The picker engine: case-insensitive prefix filtering of the item list,
//! the selection/scroll state and its key-event transitions, and a
//! scriptable session loop over a sequence of key events.

use vstd::prelude::*;
use vstd::string::StrSliceExecFns;

use crate::text::{filter_matches, matches_filter, push_char};

verus! {

/// The filtered item sequence for filter text `f`: exactly the subsequence
/// of the labels whose lowercased form starts with the lowercased filter,
/// in their original relative order.
pub open spec fn filtered_spec(items: Seq<Seq<char>>, f: Seq<char>) -> Seq<Seq<char>> {
    items.filter(|s: Seq<char>| matches_filter(s, f))
}

/// Applies the filter text to the full item list.
pub fn filter_items(items: &Vec<String>, filter: &str) -> (r: Vec<String>)
    ensures
        r.deep_view() == filtered_spec(items.deep_view(), filter@),
{
    let n = items.len();
    let mut r: Vec<String> = Vec::new();
    proof {
        reveal(Seq::filter);
        assert(r.deep_view() =~~= filtered_spec(items.deep_view().take(0), filter@));
    }
    for i in 0..n
        invariant
            n == items@.len(),
            r.deep_view() == filtered_spec(items.deep_view().take(i as int), filter@),
    {
        let ghost prev = r.deep_view();
        let m = filter_matches(items[i].as_str(), filter);
        if m {
            r.push(items[i].clone());
        }
        proof {
            reveal(Seq::filter);
            let iv = items.deep_view();
            assert(iv.take(i + 1).drop_last() =~= iv.take(i as int));
            assert(iv.take(i + 1).last() == iv[i as int]);
            if m {
                assert(r.deep_view() =~~= prev.push(iv[i as int]));
            }
            assert(r.deep_view() =~~= filtered_spec(iv.take(i + 1), filter@));
        }
    }
    proof {
        assert(items.deep_view().take(n as int) =~= items.deep_view());
    }
    r
}

/// The key events the picker reacts to. Every other key is ignored by the
/// caller and never reaches the engine.
#[derive(Debug, Clone, Copy, PartialEq, Eq, Structural)]
pub enum Key {
    Up,
    Down,
    Char(char),
    Backspace,
    Accept,
    Cancel,
}

/// Whether the session goes on after a key, or ends by acceptance or
/// cancellation.
#[derive(Debug, Clone, Copy, PartialEq, Eq, Structural)]
pub enum StepOutcome {
    Running,
    Accepted,
    Cancelled,
}

/// The picker's browsing state. `selected` and `offset` index into the
/// filtered item sequence; `last_frame` is the visible slice as it was most
/// recently rendered.
pub struct BrowserState {
    pub selected: usize,
    pub offset: usize,
    pub filter: String,
    pub last_frame: Vec<String>,
}

/// The window invariant: the selection lies inside the visible window, and
/// inside the filtered sequence whenever that is non-empty.
pub open spec fn state_wf(selected: int, offset: int, filtered_len: int, height: int) -> bool {
    &&& 0 <= offset <= selected
    &&& selected < offset + height
    &&& (filtered_len == 0 ==> selected == 0 && offset == 0)
    &&& (filtered_len > 0 ==> selected < filtered_len)
}

/// The selection index clamped into the filtered sequence.
pub open spec fn clamp_selected_spec(selected: int, filtered_len: int) -> int {
    if filtered_len == 0 {
        0
    } else if selected < filtered_len {
        selected
    } else {
        filtered_len - 1
    }
}

/// The scroll offset pulled back over the clamped selection, then pushed
/// forward just enough to bring the selection into the window.
pub open spec fn clamp_offset_spec(offset: int, selected: int, height: int) -> int {
    let o = if offset <= selected {
        offset
    } else {
        selected
    };
    if selected >= o + height {
        selected - height + 1
    } else {
        o
    }
}

/// One key-event transition of `(selected, offset, filter)`, given the
/// current filtered length and window height.
pub open spec fn key_step(
    selected: int,
    offset: int,
    filter: Seq<char>,
    key: Key,
    filtered_len: int,
    height: int,
) -> (int, int, Seq<char>) {
    match key {
        Key::Up => {
            if selected > 0 {
                let s = selected - 1;
                (s, if s < offset {
                    offset - 1
                } else {
                    offset
                }, filter)
            } else {
                (selected, offset, filter)
            }
        },
        Key::Down => {
            if selected + 1 < filtered_len {
                let s = selected + 1;
                (s, if s >= offset + height {
                    offset + 1
                } else {
                    offset
                }, filter)
            } else {
                (selected, offset, filter)
            }
        },
        Key::Char(c) => (0, 0, filter.push(c)),
        Key::Backspace => (
            0,
            0,
            if filter.len() > 0 {
                filter.drop_last()
            } else {
                filter
            },
        ),
        Key::Accept => (selected, offset, filter),
        Key::Cancel => (selected, offset, filter),
    }
}

/// Law: the window invariant holds again after any key event, judged
/// against the item count the new filter text selects (`new_len` equals
/// `len` whenever the key left the filter text unchanged).
pub proof fn lemma_key_step_wf(
    selected: int,
    offset: int,
    filter: Seq<char>,
    key: Key,
    len: int,
    height: int,
    new_len: int,
)
    requires
        height >= 1,
        0 <= new_len,
        state_wf(selected, offset, len, height),
        ({
            let (s2, o2, f2) = key_step(selected, offset, filter, key, len, height);
            f2 == filter ==> new_len == len
        }),
    ensures
        ({
            let (s2, o2, f2) = key_step(selected, offset, filter, key, len, height);
            state_wf(s2, o2, new_len, height)
        }),
{
    match key {
        Key::Char(c) => {
            assert(filter.push(c).len() == filter.len() + 1);
        },
        _ => {},
    }
}

impl BrowserState {
    /// A fresh session: empty filter, selection and scroll at the top, no
    /// frame rendered yet.
    pub fn new() -> (s: Self)
        ensures
            s.selected == 0,
            s.offset == 0,
            s.filter@ == Seq::<char>::empty(),
            s.last_frame.deep_view() == Seq::<Seq<char>>::empty(),
    {
        let s = BrowserState {
            selected: 0,
            offset: 0,
            filter: String::new(),
            last_frame: Vec::new(),
        };
        proof {
            assert(s.last_frame.deep_view() =~~= Seq::<Seq<char>>::empty());
        }
        s
    }

    /// Clamps selection and offset back into range after the filtered set
    /// changed size, re-establishing the window invariant.
    pub fn clamp(&mut self, filtered_len: usize, height: usize)
        requires
            height >= 1,
        ensures
            final(self).selected == clamp_selected_spec(old(self).selected as int, filtered_len as int),
            final(self).offset == clamp_offset_spec(
                old(self).offset as int,
                final(self).selected as int,
                height as int,
            ),
            state_wf(final(self).selected as int, final(self).offset as int, filtered_len as int, height as int),
            final(self).filter == old(self).filter,
            final(self).last_frame == old(self).last_frame,
    {
        if filtered_len == 0 {
            self.selected = 0;
        } else if self.selected >= filtered_len {
            self.selected = filtered_len - 1;
        }
        if self.offset > self.selected {
            self.offset = self.selected;
        }
        if self.selected - self.offset >= height {
            self.offset = self.selected - (height - 1);
        }
    }

    /// Applies one key event to the state. The filtered length must be the
    /// one the current filter text selects; the caller re-derives it (and
    /// clamps) after every change of the filter text.
    pub fn handle_key(&mut self, key: Key, filtered_len: usize, height: usize) -> (out:
        StepOutcome)
        requires
            height >= 1,
            state_wf(
                old(self).selected as int,
                old(self).offset as int,
                filtered_len as int,
                height as int,
            ),
        ensures
            ({
                let (s2, o2, f2) = key_step(
                    old(self).selected as int,
                    old(self).offset as int,
                    old(self).filter@,
                    key,
                    filtered_len as int,
                    height as int,
                );
                final(self).selected == s2 && final(self).offset == o2 && final(self).filter@
                    == f2
            }),
            final(self).last_frame == old(self).last_frame,
            out == (match key {
                Key::Accept => StepOutcome::Accepted,
                Key::Cancel => StepOutcome::Cancelled,
                _ => StepOutcome::Running,
            }),
    {
        match key {
            Key::Up => {
                if self.selected > 0 {
                    self.selected = self.selected - 1;
                    if self.selected < self.offset {
                        self.offset = self.offset - 1;
                    }
                }
                StepOutcome::Running
            },
            Key::Down => {
                if filtered_len > 0 && self.selected < filtered_len - 1 {
                    self.selected = self.selected + 1;
                    if self.selected - self.offset >= height {
                        self.offset = self.offset + 1;
                    }
                }
                StepOutcome::Running
            },
            Key::Char(c) => {
                push_char(&mut self.filter, c);
                self.selected = 0;
                self.offset = 0;
                StepOutcome::Running
            },
            Key::Backspace => {
                let l = self.filter.as_str().unicode_len();
                if l > 0 {
                    let shortened = self.filter.as_str().substring_char(0, l - 1).to_owned();
                    proof {
                        assert(shortened@ =~= self.filter@.drop_last());
                    }
                    self.filter = shortened;
                }
                self.selected = 0;
                self.offset = 0;
                StepOutcome::Running
            },
            Key::Accept => StepOutcome::Accepted,
            Key::Cancel => StepOutcome::Cancelled,
        }
    }
}

/// What a session returns from the given state onwards: keys are consumed
/// in order; on each the filtered sequence is re-derived and the state
/// clamped; `Accept` yields the selected filtered label (nothing when the
/// filtered set is empty), and `Cancel`, like running out of keys, yields
/// no selection.
pub open spec fn session_spec(
    items: Seq<Seq<char>>,
    keys: Seq<Key>,
    selected: int,
    offset: int,
    filter: Seq<char>,
    height: int,
) -> Option<Seq<char>>
    decreases keys.len(),
{
    if keys.len() == 0 {
        None
    } else {
        let filtered = filtered_spec(items, filter);
        let sc = clamp_selected_spec(selected, filtered.len() as int);
        let oc = clamp_offset_spec(offset, sc, height);
        match keys[0] {
            Key::Accept => if filtered.len() > 0 {
                Some(filtered[sc])
            } else {
                None
            },
            Key::Cancel => None,
            _ => {
                let (s2, o2, f2) = key_step(sc, oc, filter, keys[0], filtered.len() as int, height);
                session_spec(items, keys.drop_first(), s2, o2, f2, height)
            },
        }
    }
}

/// A whole session from a fresh state: top of the list, empty filter.
pub open spec fn run_session_spec(items: Seq<Seq<char>>, keys: Seq<Key>, height: int) -> Option<
    Seq<char>,
> {
    session_spec(items, keys, 0, 0, Seq::empty(), height)
}

/// Drives a whole picker session over a given key sequence: the scriptable
/// harness that shares its engine with the interactive loop.
pub fn picker_session(items: &Vec<String>, keys: &Vec<Key>, height: usize) -> (r: Option<String>)
    requires
        height >= 1,
    ensures
        r.deep_view() == run_session_spec(items.deep_view(), keys@, height as int),
{
    let mut state = BrowserState::new();
    let n = keys.len();
    proof {
        assert(keys@.skip(0) =~= keys@);
    }
    for i in 0..n
        invariant
            n == keys@.len(),
            height >= 1,
            session_spec(
                items.deep_view(),
                keys@.skip(i as int),
                state.selected as int,
                state.offset as int,
                state.filter@,
                height as int,
            ) == run_session_spec(items.deep_view(), keys@, height as int),
    {
        let filtered = filter_items(items, state.filter.as_str());
        state.clamp(filtered.len(), height);
        let key = keys[i];
        proof {
            assert(keys@.skip(i as int)[0] == keys@[i as int]);
            assert(keys@.skip(i as int).drop_first() =~= keys@.skip(i + 1));
        }
        match state.handle_key(key, filtered.len(), height) {
            StepOutcome::Accepted => {
                if filtered.len() > 0 {
                    return Some(filtered[state.selected].clone());
                } else {
                    return None;
                }
            },
            StepOutcome::Cancelled => {
                return None;
            },
            StepOutcome::Running => {},
        }
    }
    proof {
        assert(keys@.skip(n as int) =~= Seq::<Key>::empty());
    }
    None
}

} // verus!
