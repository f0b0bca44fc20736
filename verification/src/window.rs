//! The context window: which lines are shown around the selected ones.
//!
//! A line is shown when it is selected, when a selected line lies at most
//! `after` lines before it, or when a selected line lies at most `before`
//! lines behind it. [`LineContextWindow`] decides this in one forward pass
//! and keeps no more than `before` lines in memory.

use std::collections::VecDeque;
use vstd::prelude::*;

verus! {

/// Some index in `lo ..= hi` holds a selected line.
pub open spec fn selected_between(marks: Seq<bool>, lo: int, hi: int) -> bool {
    exists|j: int| lo <= j <= hi && 0 <= j < marks.len() && #[trigger] marks[j]
}

/// Line `i` is shown: a selected line lies in `i - after ..= i + before`.
pub open spec fn in_context(marks: Seq<bool>, before: nat, after: nat, i: int) -> bool {
    selected_between(marks, i - after, i + before)
}

/// The shown items among the first `n`, in their order.
pub open spec fn context_filter<T>(
    items: Seq<T>,
    marks: Seq<bool>,
    before: nat,
    after: nat,
    n: int,
) -> Seq<T>
    decreases n,
{
    if n <= 0 {
        Seq::empty()
    } else {
        let rest = context_filter(items, marks, before, after, n - 1);
        if in_context(marks, before, after, n - 1) {
            rest.push(items[n - 1])
        } else {
            rest
        }
    }
}

/// All shown items, in their order. `marks[i]` says whether `items[i]` is
/// selected.
pub open spec fn context_select<T>(items: Seq<T>, marks: Seq<bool>, before: nat, after: nat) -> Seq<
    T,
>
    recommends
        items.len() == marks.len(),
{
    context_filter(items, marks, before, after, items.len() as int)
}

/// The last `n` items of `s`, or all of `s` where it has fewer.
pub open spec fn keep_last<T>(s: Seq<T>, n: nat) -> Seq<T> {
    if s.len() <= n {
        s
    } else {
        s.subrange(s.len() - n, s.len() as int)
    }
}

/// What one line adds to the output.
pub open spec fn step_emitted<T>(pending: Seq<T>, remaining: nat, item: T, selected: bool) -> Seq<
    T,
> {
    if selected {
        pending.push(item)
    } else if remaining > 0 {
        seq![item]
    } else {
        Seq::empty()
    }
}

/// The held-back lines after one line.
pub open spec fn step_pending<T>(
    before: nat,
    pending: Seq<T>,
    remaining: nat,
    item: T,
    selected: bool,
) -> Seq<T> {
    if selected {
        Seq::empty()
    } else if remaining > 0 {
        pending
    } else {
        keep_last(pending.push(item), before)
    }
}

/// The trailing lines still owed after one line.
pub open spec fn step_remaining(after: nat, remaining: nat, selected: bool) -> nat {
    if selected {
        after
    } else if remaining > 0 {
        (remaining - 1) as nat
    } else {
        0
    }
}

/// The state of one pass over a file: the unselected lines held back in case
/// a selected line follows, oldest first, and the number of trailing lines
/// still owed to the last selected line.
pub struct LineContextWindow<T> {
    pre_capacity: usize,
    post_capacity: usize,
    pending: VecDeque<T>,
    post_remaining: usize,
}

impl<T> LineContextWindow<T> {
    /// The number of leading context lines.
    pub closed spec fn pre_capacity(&self) -> nat {
        self.pre_capacity as nat
    }

    /// The number of trailing context lines.
    pub closed spec fn post_capacity(&self) -> nat {
        self.post_capacity as nat
    }

    /// The lines held back, oldest first.
    pub closed spec fn pending(&self) -> Seq<T> {
        self.pending@
    }

    /// The trailing lines still owed.
    pub closed spec fn post_remaining(&self) -> nat {
        self.post_remaining as nat
    }

    /// No more lines are held back than the leading context asks for, no more
    /// trailing lines are owed than the trailing context asks for, and
    /// nothing is held back while trailing lines are owed.
    pub open spec fn wf(&self) -> bool {
        &&& self.pending().len() <= self.pre_capacity()
        &&& self.post_remaining() <= self.post_capacity()
        &&& self.post_remaining() > 0 ==> self.pending().len() == 0
    }

    /// A window at the start of a file.
    pub fn new(pre_capacity: usize, post_capacity: usize) -> (w: Self)
        ensures
            w.wf(),
            w.pre_capacity() == pre_capacity,
            w.post_capacity() == post_capacity,
            w.pending() == Seq::<T>::empty(),
            w.post_remaining() == 0,
    {
        LineContextWindow { pre_capacity, post_capacity, pending: VecDeque::new(), post_remaining: 0 }
    }

    /// The number of lines held back.
    pub fn pending_len(&self) -> (n: usize)
        ensures
            n == self.pending().len(),
    {
        self.pending.len()
    }

    /// Takes the next line of the file. A selected line goes to `out` behind
    /// the lines held back, and trailing context is owed anew. An unselected
    /// line goes to `out` while trailing context is owed; otherwise it is held
    /// back, and the oldest line held back is dropped where the leading
    /// context is full.
    pub fn feed(&mut self, item: T, selected: bool, out: &mut Vec<T>)
        requires
            old(self).wf(),
        ensures
            final(self).wf(),
            final(self).pre_capacity() == old(self).pre_capacity(),
            final(self).post_capacity() == old(self).post_capacity(),
            final(out)@ == old(out)@ + step_emitted(
                old(self).pending(),
                old(self).post_remaining(),
                item,
                selected,
            ),
            final(self).pending() == step_pending(
                old(self).pre_capacity(),
                old(self).pending(),
                old(self).post_remaining(),
                item,
                selected,
            ),
            final(self).post_remaining() == step_remaining(
                old(self).post_capacity(),
                old(self).post_remaining(),
                selected,
            ),
    {
        if selected {
            let ghost held = self.pending@;
            let ghost before = out@;
            while self.pending.len() > 0
                invariant
                    self.pending@.len() <= held.len(),
                    out@ + self.pending@ == before + held,
                    self.pre_capacity == old(self).pre_capacity,
                    self.post_capacity == old(self).post_capacity,
                decreases self.pending@.len(),
            {
                let ghost rest = self.pending@;
                let ghost sofar = out@;
                let oldest = self.pending.pop_front();
                match oldest {
                    Some(line) => {
                        out.push(line);
                        assert(out@ + self.pending@ =~= sofar + rest);
                    },
                    None => {},
                }
            }
            assert(out@ =~= out@ + self.pending@);
            out.push(item);
            self.post_remaining = self.post_capacity;
            assert(out@ =~= before + held.push(item));
        } else if self.post_remaining > 0 {
            let ghost before = out@;
            out.push(item);
            self.post_remaining = self.post_remaining - 1;
            assert(out@ =~= before + seq![item]);
        } else {
            let ghost held = self.pending@;
            if self.pre_capacity > 0 {
                if self.pending.len() == self.pre_capacity {
                    let _ = self.pending.pop_front();
                }
                self.pending.push_back(item);
            }
            assert(self.pending@ =~= keep_last(held.push(item), self.pre_capacity as nat));
            assert(out@ =~= out@ + Seq::<T>::empty());
        }
    }
}

/// What holds after `k` lines of a file have been taken: `out` holds the shown
/// lines among those that are decided, `pending` the undecided ones, which are
/// the last lines taken, and `remaining` counts down from the last selected
/// line.
pub open spec fn tracks<T>(
    items: Seq<T>,
    marks: Seq<bool>,
    before: nat,
    after: nat,
    k: int,
    out: Seq<T>,
    pending: Seq<T>,
    remaining: nat,
) -> bool {
    let decided = k - pending.len();
    let last = k - 1 - (after - remaining);
    &&& items.len() == marks.len()
    &&& 0 <= k <= items.len()
    &&& pending.len() <= before
    &&& remaining <= after
    &&& 0 <= decided
    &&& pending == items.subrange(decided, k)
    &&& out == context_filter(items, marks, before, after, decided)
    &&& remaining > 0 ==> {
        &&& pending.len() == 0
        &&& 0 <= last
        &&& marks[last]
        &&& forall|j: int| last < j < k ==> !#[trigger] marks[j]
    }
    &&& remaining == 0 ==> !selected_between(marks, decided - after, k - 1)
}

/// Where every line of `lo .. hi` is shown, the filter takes them all.
proof fn lemma_filter_all<T>(
    items: Seq<T>,
    marks: Seq<bool>,
    before: nat,
    after: nat,
    lo: int,
    hi: int,
)
    requires
        0 <= lo <= hi <= items.len(),
        forall|i: int| lo <= i < hi ==> in_context(marks, before, after, i),
    ensures
        context_filter(items, marks, before, after, hi) == context_filter(
            items,
            marks,
            before,
            after,
            lo,
        ) + items.subrange(lo, hi),
    decreases hi - lo,
{
    let base = context_filter(items, marks, before, after, lo);
    if lo == hi {
        assert(base + items.subrange(lo, hi) =~= base);
    } else {
        lemma_filter_all(items, marks, before, after, lo, hi - 1);
        assert(in_context(marks, before, after, hi - 1));
        assert((base + items.subrange(lo, hi - 1)).push(items[hi - 1]) =~= base + items.subrange(
            lo,
            hi,
        ));
    }
}

/// Where no line of `lo .. hi` is shown, the filter takes none of them.
proof fn lemma_filter_none<T>(
    items: Seq<T>,
    marks: Seq<bool>,
    before: nat,
    after: nat,
    lo: int,
    hi: int,
)
    requires
        0 <= lo <= hi,
        forall|i: int| lo <= i < hi ==> !in_context(marks, before, after, i),
    ensures
        context_filter(items, marks, before, after, hi) == context_filter(
            items,
            marks,
            before,
            after,
            lo,
        ),
    decreases hi - lo,
{
    if lo < hi {
        lemma_filter_none(items, marks, before, after, lo, hi - 1);
        assert(!in_context(marks, before, after, hi - 1));
    }
}

/// Nothing has been taken yet: the empty output tracks the empty prefix.
pub proof fn lemma_tracks_start<T>(items: Seq<T>, marks: Seq<bool>, before: nat, after: nat)
    requires
        items.len() == marks.len(),
    ensures
        tracks(items, marks, before, after, 0, Seq::<T>::empty(), Seq::<T>::empty(), 0),
{
    assert(items.subrange(0, 0) =~= Seq::<T>::empty());
}

/// One step of the window keeps track of the shown lines.
pub proof fn lemma_tracks_step<T>(
    items: Seq<T>,
    marks: Seq<bool>,
    before: nat,
    after: nat,
    k: int,
    out: Seq<T>,
    pending: Seq<T>,
    remaining: nat,
)
    requires
        tracks(items, marks, before, after, k, out, pending, remaining),
        k < items.len(),
    ensures
        tracks(
            items,
            marks,
            before,
            after,
            k + 1,
            out + step_emitted(pending, remaining, items[k], marks[k]),
            step_pending(before, pending, remaining, items[k], marks[k]),
            step_remaining(after, remaining, marks[k]),
        ),
{
    let decided = k - pending.len();
    let out2 = out + step_emitted(pending, remaining, items[k], marks[k]);
    let pending2 = step_pending(before, pending, remaining, items[k], marks[k]);
    if marks[k] {
        assert forall|i: int| decided <= i < k + 1 implies in_context(marks, before, after, i) by {
            assert(i - after <= k <= i + before && marks[k]);
        }
        lemma_filter_all(items, marks, before, after, decided, k + 1);
        assert(pending.push(items[k]) =~= items.subrange(decided, k + 1));
        assert(pending2 =~= items.subrange(k + 1, k + 1));
    } else if remaining > 0 {
        let last = k - 1 - (after - remaining);
        assert(k - after <= last <= k + before && marks[last]);
        assert(in_context(marks, before, after, k));
        assert(out2 =~= out.push(items[k]));
        assert(pending2 =~= items.subrange(k + 1, k + 1));
    } else if pending.len() < before {
        assert(out2 =~= out);
        assert(pending2 =~= items.subrange(decided, k + 1));
    } else {
        assert(out2 =~= out);
        assert(pending2 =~= items.subrange(decided + 1, k + 1));
        assert(!in_context(marks, before, after, decided));
    }
}

/// At the end of the file the output is the shown lines, all of them.
pub proof fn lemma_tracks_end<T>(
    items: Seq<T>,
    marks: Seq<bool>,
    before: nat,
    after: nat,
    out: Seq<T>,
    pending: Seq<T>,
    remaining: nat,
)
    requires
        tracks(items, marks, before, after, items.len() as int, out, pending, remaining),
    ensures
        out == context_select(items, marks, before, after),
{
    let n = items.len() as int;
    let decided = n - pending.len();
    assert forall|i: int| decided <= i < n implies !in_context(marks, before, after, i) by {}
    lemma_filter_none(items, marks, before, after, decided, n);
}

/// The shown items of `items`, in their order, where `marks[i]` says whether
/// `items[i]` is selected.
pub fn select_with_context<T>(items: Vec<T>, marks: &Vec<bool>, before: usize, after: usize) -> (out:
    Vec<T>)
    requires
        items.len() == marks.len(),
    ensures
        out@ == context_select(items@, marks@, before as nat, after as nat),
{
    let ghost all = items@;
    let mut window: LineContextWindow<T> = LineContextWindow::new(before, after);
    let mut out: Vec<T> = Vec::new();
    let mut k: usize = 0;
    proof {
        lemma_tracks_start(all, marks@, before as nat, after as nat);
    }
    for item in it: items
        invariant
            it.seq() == all,
            k == it.index(),
            all.len() == marks.len(),
            window.wf(),
            window.pre_capacity() == before,
            window.post_capacity() == after,
            tracks(
                all,
                marks@,
                before as nat,
                after as nat,
                k as int,
                out@,
                window.pending(),
                window.post_remaining(),
            ),
    {
        proof {
            lemma_tracks_step(
                all,
                marks@,
                before as nat,
                after as nat,
                k as int,
                out@,
                window.pending(),
                window.post_remaining(),
            );
        }
        window.feed(item, marks[k], &mut out);
        k = k + 1;
    }
    proof {
        lemma_tracks_end(
            all,
            marks@,
            before as nat,
            after as nat,
            out@,
            window.pending(),
            window.post_remaining(),
        );
    }
    out
}

/// The selected items among the first `n`, in their order.
pub open spec fn selected_items<T>(items: Seq<T>, marks: Seq<bool>, n: int) -> Seq<T>
    decreases n,
{
    if n <= 0 {
        Seq::empty()
    } else {
        let rest = selected_items(items, marks, n - 1);
        if marks[n - 1] {
            rest.push(items[n - 1])
        } else {
            rest
        }
    }
}

/// Without context, the filter of the first `n` items takes the selected
/// ones.
proof fn lemma_filter_without_context<T>(items: Seq<T>, marks: Seq<bool>, n: int)
    requires
        n <= marks.len(),
    ensures
        context_filter(items, marks, 0, 0, n) == selected_items(items, marks, n),
    decreases n,
{
    if n > 0 {
        lemma_filter_without_context(items, marks, n - 1);
        if marks[n - 1] {
            assert(selected_between(marks, n - 1, n - 1));
        }
    }
}

/// With no leading and no trailing context, what is shown is exactly the
/// selected items, in their order and as they are.
pub proof fn law_no_context_shows_selected<T>(items: Seq<T>, marks: Seq<bool>)
    requires
        items.len() == marks.len(),
    ensures
        context_select(items, marks, 0, 0) == selected_items(items, marks, items.len() as int),
{
    lemma_filter_without_context(items, marks, items.len() as int);
}

/// A window that holds no more lines than its leading context allows still
/// does so after any step. Where it is full and holds back one more line, the
/// line it lets go is the oldest.
pub proof fn law_pending_bounded<T>(
    before: nat,
    pending: Seq<T>,
    remaining: nat,
    item: T,
    selected: bool,
)
    requires
        pending.len() <= before,
    ensures
        step_pending(before, pending, remaining, item, selected).len() <= before,
        !selected && remaining == 0 && pending.len() < before ==> step_pending(
            before,
            pending,
            remaining,
            item,
            selected,
        ) == pending.push(item),
        !selected && remaining == 0 && pending.len() == before && before > 0 ==> step_pending(
            before,
            pending,
            remaining,
            item,
            selected,
        ) == pending.skip(1).push(item),
        !selected && remaining == 0 && before == 0 ==> step_pending(
            before,
            pending,
            remaining,
            item,
            selected,
        ) == Seq::<T>::empty(),
{
    if !selected && remaining == 0 {
        let held = step_pending(before, pending, remaining, item, selected);
        if pending.len() == before && before > 0 {
            assert(held =~= pending.skip(1).push(item));
        } else if before == 0 {
            assert(held =~= Seq::<T>::empty());
        }
    }
}

} // verus!
