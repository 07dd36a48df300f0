//! Incremental frame rendering: the minimal write list between two frames,
//! the visible slice with its selection marker, and the incremental
//! filter-status line update.

use vstd::prelude::*;
use vstd::string::StrSliceExecFns;
use vstd::string::StringExecFns;

use crate::picker::BrowserState;
use crate::text::{is_prefix_of, str_is_prefix};

verus! {

/// One screen write of a diff-render step: rewrite a row with new text, or
/// clear a row entirely.
#[derive(Debug, PartialEq, Eq)]
pub enum ScreenOp {
    Write { row: usize, text: String },
    Clear { row: usize },
}

/// The mathematical value of a [`ScreenOp`].
#[verifier::ext_equal]
pub enum ScreenOpV {
    Write { row: int, text: Seq<char> },
    Clear { row: int },
}

impl View for ScreenOp {
    type V = ScreenOpV;

    open spec fn view(&self) -> ScreenOpV {
        match self {
            ScreenOp::Write { row, text } => ScreenOpV::Write { row: *row as int, text: text@ },
            ScreenOp::Clear { row } => ScreenOpV::Clear { row: *row as int },
        }
    }
}

impl DeepView for ScreenOp {
    type V = ScreenOpV;

    open spec fn deep_view(&self) -> ScreenOpV {
        self.view()
    }
}

/// The op for row `i` of the transition from frame `old` to frame `new`:
/// a rewrite where the row's text changes or the row is new, a clear where
/// the row exists only in the old frame, nothing where it is unchanged.
pub open spec fn diff_at(old: Seq<Seq<char>>, new: Seq<Seq<char>>, i: int) -> Option<ScreenOpV> {
    if i < new.len() {
        if i < old.len() && old[i] == new[i] {
            None
        } else {
            Some(ScreenOpV::Write { row: i, text: new[i] })
        }
    } else {
        Some(ScreenOpV::Clear { row: i })
    }
}

/// The ops for rows `0..n`, in row order.
pub open spec fn diff_upto(old: Seq<Seq<char>>, new: Seq<Seq<char>>, n: int) -> Seq<ScreenOpV>
    decreases n,
{
    if n <= 0 {
        Seq::empty()
    } else {
        diff_upto(old, new, n - 1) + (match diff_at(old, new, n - 1) {
            Some(op) => seq![op],
            None => Seq::empty(),
        })
    }
}

/// The write list taking the old frame to the new one, touching only rows
/// that change.
pub open spec fn diff_spec(old: Seq<Seq<char>>, new: Seq<Seq<char>>) -> Seq<ScreenOpV> {
    diff_upto(
        old,
        new,
        if old.len() >= new.len() {
            old.len() as int
        } else {
            new.len() as int
        },
    )
}

proof fn lemma_diff_upto_self(frame: Seq<Seq<char>>, n: int)
    requires
        n <= frame.len(),
    ensures
        diff_upto(frame, frame, n) =~= Seq::<ScreenOpV>::empty(),
    decreases n,
{
    if n > 0 {
        lemma_diff_upto_self(frame, n - 1);
    }
}

/// Law: the diff-render step is idempotent — diffing a frame against
/// itself, as a second render with no state change in between does, yields
/// no writes at all.
pub proof fn lemma_diff_idempotent(frame: Seq<Seq<char>>)
    ensures
        diff_spec(frame, frame) == Seq::<ScreenOpV>::empty(),
{
    lemma_diff_upto_self(frame, frame.len() as int);
}

/// Computes the write list taking the previously rendered frame to the new
/// one.
pub fn diff_frames(old: &Vec<String>, new: &Vec<String>) -> (ops: Vec<ScreenOp>)
    ensures
        ops.deep_view() == diff_spec(old.deep_view(), new.deep_view()),
{
    let n = if old.len() >= new.len() {
        old.len()
    } else {
        new.len()
    };
    let mut ops: Vec<ScreenOp> = Vec::new();
    proof {
        assert(ops.deep_view() =~~= diff_upto(old.deep_view(), new.deep_view(), 0));
    }
    for i in 0..n
        invariant
            n == (if old@.len() >= new@.len() {
                old@.len()
            } else {
                new@.len()
            }),
            ops.deep_view() == diff_upto(old.deep_view(), new.deep_view(), i as int),
    {
        let ghost prev = ops.deep_view();
        if i < new.len() {
            if i < old.len() && old[i].eq(&new[i]) {
                // row unchanged: nothing to write
            } else {
                ops.push(ScreenOp::Write { row: i, text: new[i].clone() });
            }
        } else {
            ops.push(ScreenOp::Clear { row: i });
        }
        proof {
            let ov = old.deep_view();
            let nv = new.deep_view();
            match diff_at(ov, nv, i as int) {
                Some(op) => {
                    assert(ops.deep_view() =~~= prev.push(op));
                    assert(prev.push(op) =~~= prev + seq![op]);
                },
                None => {},
            }
            assert(ops.deep_view() =~~= diff_upto(ov, nv, i + 1));
        }
    }
    ops
}

/// The rendered line for one label: the selection marker for the selected
/// row, an equal-width indent for every other, then the label.
pub open spec fn line_spec(label: Seq<char>, selected: bool) -> Seq<char> {
    (if selected {
        "> "@
    } else {
        "  "@
    }) + label
}

/// The visible slice `[offset, min(offset + height, len))` of the filtered
/// items, each rendered with its marker.
pub open spec fn visible_spec(
    filtered: Seq<Seq<char>>,
    offset: int,
    selected: int,
    height: int,
) -> Seq<Seq<char>> {
    let end = if offset + height <= filtered.len() {
        offset + height
    } else {
        filtered.len() as int
    };
    if offset <= end {
        Seq::new((end - offset) as nat, |i: int| line_spec(filtered[offset + i], offset + i == selected))
    } else {
        Seq::empty()
    }
}

/// Renders the visible slice of the filtered items.
pub fn visible_lines(filtered: &Vec<String>, offset: usize, selected: usize, height: usize) -> (r:
    Vec<String>)
    ensures
        r.deep_view() == visible_spec(
            filtered.deep_view(),
            offset as int,
            selected as int,
            height as int,
        ),
{
    let len = filtered.len();
    let mut r: Vec<String> = Vec::new();
    if offset >= len {
        proof {
            assert(r.deep_view() =~~= visible_spec(
                filtered.deep_view(),
                offset as int,
                selected as int,
                height as int,
            ));
        }
        return r;
    }
    let remaining = len - offset;
    let count = if height <= remaining {
        height
    } else {
        remaining
    };
    let ghost target = visible_spec(
        filtered.deep_view(),
        offset as int,
        selected as int,
        height as int,
    );
    proof {
        assert(target.len() == count);
        assert(r.deep_view() =~~= target.take(0));
    }
    for j in 0..count
        invariant
            count <= remaining,
            remaining == len - offset,
            offset < len,
            len == filtered@.len(),
            target == visible_spec(
                filtered.deep_view(),
                offset as int,
                selected as int,
                height as int,
            ),
            target.len() == count,
            r.deep_view() == target.take(j as int),
    {
        let ghost prev = r.deep_view();
        let idx = offset + j;
        let mut line = if idx == selected {
            "> ".to_owned()
        } else {
            "  ".to_owned()
        };
        line.append(filtered[idx].as_str());
        proof {
            assert(line@ == line_spec(filtered.deep_view()[idx as int], idx == selected));
            assert(target[j as int] == line_spec(
                filtered.deep_view()[offset + j],
                offset + j == selected,
            ));
        }
        r.push(line);
        proof {
            assert(r.deep_view() =~~= prev.push(target[j as int]));
            assert(prev.push(target[j as int]) =~~= target.take(j + 1));
        }
    }
    proof {
        assert(target.take(count as int) =~= target);
    }
    r
}

/// One diff-render step of the picker: computes the new visible slice from
/// the current state, diffs it against the previously rendered frame,
/// stores the new frame, and returns the writes to apply.
pub fn render_step(state: &mut BrowserState, filtered: &Vec<String>, height: usize) -> (ops: Vec<
    ScreenOp,
>)
    ensures
        ({
            let frame = visible_spec(
                filtered.deep_view(),
                old(state).offset as int,
                old(state).selected as int,
                height as int,
            );
            &&& ops.deep_view() == diff_spec(old(state).last_frame.deep_view(), frame)
            &&& final(state).last_frame.deep_view() == frame
            &&& final(state).selected == old(state).selected
            &&& final(state).offset == old(state).offset
            &&& final(state).filter == old(state).filter
        }),
{
    let frame = visible_lines(filtered, state.offset, state.selected, height);
    let ops = diff_frames(&state.last_frame, &frame);
    state.last_frame = frame;
    ops
}

/// How the filter-status line is brought up to date: newly typed characters
/// are appended after the unchanged prefix, removed characters are blanked
/// out by count, and any other change rewrites the whole text.
#[derive(Debug, PartialEq, Eq)]
pub enum StatusOp {
    Append { text: String },
    Erase { count: usize },
    Rewrite { text: String },
}

/// The mathematical value of a [`StatusOp`].
#[verifier::ext_equal]
pub enum StatusOpV {
    Append { text: Seq<char> },
    Erase { count: int },
    Rewrite { text: Seq<char> },
}

impl View for StatusOp {
    type V = StatusOpV;

    open spec fn view(&self) -> StatusOpV {
        match self {
            StatusOp::Append { text } => StatusOpV::Append { text: text@ },
            StatusOp::Erase { count } => StatusOpV::Erase { count: *count as int },
            StatusOp::Rewrite { text } => StatusOpV::Rewrite { text: text@ },
        }
    }
}

/// The update taking the status line from showing `old_text` to showing
/// `new_text`.
pub open spec fn status_spec(old_text: Seq<char>, new_text: Seq<char>) -> StatusOpV {
    if is_prefix_of(old_text, new_text) {
        StatusOpV::Append { text: new_text.skip(old_text.len() as int) }
    } else if is_prefix_of(new_text, old_text) {
        StatusOpV::Erase { count: old_text.len() - new_text.len() }
    } else {
        StatusOpV::Rewrite { text: new_text }
    }
}

/// Law: with an unchanged filter text the status line needs no update
/// either — the appended suffix is empty.
pub proof fn lemma_status_idempotent(text: Seq<char>)
    ensures
        status_spec(text, text) == (StatusOpV::Append { text: Seq::<char>::empty() }),
{
    assert(text.skip(text.len() as int) =~= Seq::<char>::empty());
}

/// Computes the incremental update of the filter-status line.
pub fn status_update(old_text: &str, new_text: &str) -> (r: StatusOp)
    ensures
        r@ == status_spec(old_text@, new_text@),
{
    if str_is_prefix(old_text, new_text) {
        let lo = old_text.unicode_len();
        let ln = new_text.unicode_len();
        let suffix = new_text.substring_char(lo, ln).to_owned();
        proof {
            assert(suffix@ =~= new_text@.skip(old_text@.len() as int));
        }
        StatusOp::Append { text: suffix }
    } else if str_is_prefix(new_text, old_text) {
        let count = old_text.unicode_len() - new_text.unicode_len();
        StatusOp::Erase { count }
    } else {
        StatusOp::Rewrite { text: new_text.to_owned() }
    }
}

} // verus!
