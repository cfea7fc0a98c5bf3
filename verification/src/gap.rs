//! The gap buffer itself.
//!
//! The buffer holds a sequence of elements and a cursor. Insertion happens at
//! the cursor in O(1) amortized time; moving the cursor costs time
//! proportional to the distance moved. Conceptually the elements sit in one
//! block of `capacity()` slots with a hole (the gap) of unused slots parked at
//! the cursor; here the two initialized regions are kept as two stacks, `before`
//! in logical order and `after` in reverse logical order, so that both edges of
//! the gap are stack tops and every slot outside the gap holds exactly one
//! live element.

use vstd::prelude::*;

verus! {

/// The capacity one growth step yields: geometric doubling, with a fixed
/// minimum of 4 to handle the zero-capacity case.
pub open spec fn grown_cap(cap: int) -> int {
    if cap == 0 {
        4
    } else {
        2 * cap
    }
}

/// The capacity a buffer of capacity `cap` holding `len` elements reaches
/// after `k` single insertions: each insertion that finds the gap empty
/// (`len == cap`) grows the capacity first, and growth happens only then.
pub open spec fn cap_after_inserts(cap: int, len: int, k: nat) -> int
    decreases k,
{
    if k == 0 {
        cap
    } else {
        let c1 = if len == cap {
            grown_cap(cap)
        } else {
            cap
        };
        cap_after_inserts(c1, len + 1, (k - 1) as nat)
    }
}

/// Unrolling `cap_after_inserts` at the last insertion instead of the first:
/// the capacity after `k + 1` insertions is the capacity after `k`, grown once
/// more exactly when the `k + 1`st finds the gap empty.
proof fn lemma_cap_after_inserts_snoc(cap: int, len: int, k: nat)
    ensures
        cap_after_inserts(cap, len, (k + 1) as nat) == ({
            let ck = cap_after_inserts(cap, len, k);
            if len + k == ck {
                grown_cap(ck)
            } else {
                ck
            }
        }),
    decreases k,
{
    let c1 = if len == cap {
        grown_cap(cap)
    } else {
        cap
    };
    if k > 0 {
        lemma_cap_after_inserts_snoc(c1, len + 1, (k - 1) as nat);
    } else {
        assert(cap_after_inserts(cap, len, 1) == cap_after_inserts(c1, len + 1, 0));
        assert(cap_after_inserts(c1, len + 1, 0) == c1);
    }
}

/// Growth transparency, capacity half: a run of insertions only ever raises
/// the capacity, never lowers it — so in particular `capacity()` never
/// decreases across any number of insertions.
pub proof fn lemma_cap_after_inserts_monotone(cap: int, len: int, k1: nat, k2: nat)
    requires
        0 <= cap,
        k1 <= k2,
    ensures
        cap <= cap_after_inserts(cap, len, k1) <= cap_after_inserts(cap, len, k2),
    decreases k2,
{
    if k1 > 0 {
        let c1 = if len == cap {
            grown_cap(cap)
        } else {
            cap
        };
        lemma_cap_after_inserts_monotone(c1, len + 1, (k1 - 1) as nat, (k2 - 1) as nat);
    } else if k2 > 0 {
        let c1 = if len == cap {
            grown_cap(cap)
        } else {
            cap
        };
        lemma_cap_after_inserts_monotone(c1, len + 1, 0, (k2 - 1) as nat);
    }
}

/// Reversing a sequence extended at the back puts the new element at the
/// front.
proof fn lemma_reverse_push<T>(s: Seq<T>, x: T)
    ensures
        s.push(x).reverse() == seq![x] + s.reverse(),
{
    let a = s.push(x).reverse();
    let b = seq![x] + s.reverse();
    assert forall|i: int| 0 <= i < a.len() implies a[i] == b[i] by {
        if i == 0 {
            assert(a[i] == s.push(x)[s.len() as int]);
        } else {
            assert(a[i] == s.push(x)[s.len() - i]);
            assert(b[i] == s.reverse()[i - 1]);
            assert(s.reverse()[i - 1] == s[s.len() - i]);
        }
    }
    assert(a =~= b);
}

/// The same fact read the other way: a nonempty sequence reversed is its last
/// element followed by the reversal of the rest.
proof fn lemma_reverse_unsnoc<T>(s: Seq<T>)
    requires
        s.len() > 0,
    ensures
        s.reverse() == seq![s.last()] + s.drop_last().reverse(),
{
    assert(s =~= s.drop_last().push(s.last()));
    lemma_reverse_push(s.drop_last(), s.last());
}

/// A sequence container with a movable insertion cursor.
pub struct GapBuffer<T> {
    /// Elements before the gap, in logical order.
    before: Vec<T>,
    /// Elements after the gap, in reverse logical order (the logically first
    /// of them is the last entry, so it can be popped in O(1)).
    after: Vec<T>,
    /// The slot budget: how many elements the buffer holds room for before the
    /// next insertion must widen the gap. Grows geometrically and never
    /// shrinks.
    cap: usize,
}

impl<T> GapBuffer<T> {
    /// The logical content: every live element in logical order, with the gap
    /// skipped entirely.
    pub closed spec fn as_seq(&self) -> Seq<T> {
        self.before@ + self.after@.reverse()
    }

    /// The cursor, as a logical index: elements `[0, position)` lie before the
    /// gap, the rest after it.
    pub closed spec fn spec_position(&self) -> int {
        self.before@.len() as int
    }

    /// The slot budget the buffer currently holds room for.
    pub closed spec fn spec_capacity(&self) -> int {
        self.cap as int
    }

    /// Well-formedness: the live elements fit in the advertised capacity; the
    /// gap `[position, capacity - (len - position))` is a genuine (possibly
    /// empty) range of free slots.
    pub closed spec fn well_formed(&self) -> bool {
        self.before@.len() + self.after@.len() <= self.cap
    }
}

impl<T> View for GapBuffer<T> {
    type V = Seq<T>;

    open spec fn view(&self) -> Seq<T> {
        self.as_seq()
    }
}

impl<T> GapBuffer<T> {
    /// Produces an empty buffer: no elements, capacity 0, cursor at 0.
    pub fn new() -> (buf: GapBuffer<T>)
        ensures
            buf.well_formed(),
            buf@ == Seq::<T>::empty(),
            buf.spec_position() == 0,
            buf.spec_capacity() == 0,
    {
        let buf = GapBuffer { before: Vec::new(), after: Vec::new(), cap: 0 };
        proof {
            assert(buf@ =~= Seq::<T>::empty());
        }
        buf
    }

    /// How many elements the buffer holds room for without growing.
    pub fn capacity(&self) -> (c: usize)
        ensures
            c == self.spec_capacity(),
    {
        self.cap
    }

    /// How many elements the buffer currently holds: the capacity minus the
    /// width of the gap.
    pub fn len(&self) -> (n: usize)
        requires
            self.well_formed(),
        ensures
            n == self@.len(),
    {
        self.before.len() + self.after.len()
    }

    /// The current cursor. It is a valid insertion index: `0 <= position()
    /// <= len()`, with equality to `len()` when the cursor sits at the end.
    pub fn position(&self) -> (p: usize)
        ensures
            p == self.spec_position(),
    {
        self.before.len()
    }

    /// The cursor always lies within the logical content, one slot past the
    /// last element at most.
    pub proof fn lemma_cursor_in_bounds(&self)
        ensures
            0 <= self.spec_position() <= self@.len(),
    {
    }

    /// Widens an empty gap by raising the capacity to `grown_cap` of the old
    /// one, reserving room for the coming elements. Content, cursor and
    /// logical order are untouched; only the capacity changes.
    fn enlarge_gap(&mut self)
        requires
            old(self).well_formed(),
            old(self)@.len() == old(self).spec_capacity(),
            grown_cap(old(self).spec_capacity()) <= usize::MAX,
        ensures
            final(self).well_formed(),
            final(self)@ == old(self)@,
            final(self).spec_position() == old(self).spec_position(),
            final(self).spec_capacity() == grown_cap(old(self).spec_capacity()),
    {
        let new_capacity: usize = if self.cap == 0 {
            4
        } else {
            self.cap * 2
        };
        self.before.reserve(new_capacity - self.before.len());
        self.cap = new_capacity;
    }

    /// Writes `value` at the cursor and advances the cursor past it. When the
    /// gap is empty the buffer grows first — lazily, never preemptively — so
    /// the capacity afterward is `grown_cap` of the old one exactly when the
    /// buffer was full, and unchanged otherwise.
    pub fn insert(&mut self, value: T)
        requires
            old(self).well_formed(),
            old(self)@.len() == old(self).spec_capacity() ==> grown_cap(
                old(self).spec_capacity(),
            ) <= usize::MAX,
        ensures
            final(self).well_formed(),
            final(self)@ == old(self)@.insert(old(self).spec_position(), value),
            final(self).spec_position() == old(self).spec_position() + 1,
            final(self).spec_capacity() == (if old(self)@.len() == old(self).spec_capacity() {
                grown_cap(old(self).spec_capacity())
            } else {
                old(self).spec_capacity()
            }),
            old(self).spec_capacity() <= final(self).spec_capacity(),
    {
        if self.before.len() + self.after.len() == self.cap {
            self.enlarge_gap();
        }
        let ghost pos = self.spec_position();
        let ghost v = self@;
        self.before.push(value);
        proof {
            assert(v.subrange(0, pos) =~= old(self).before@);
            assert(v.subrange(pos, v.len() as int) =~= old(self).after@.reverse());
            assert(self@ =~= v.insert(pos, value));
        }
    }

    /// Returns the element at logical `index`, or `None` when `index` is at or
    /// past the end. Reading never touches the gap, moves the cursor, or
    /// reallocates.
    pub fn get(&self, index: usize) -> (r: Option<&T>)
        ensures
            index < self@.len() ==> (r matches Some(e) && *e == self@[index as int]),
            index >= self@.len() ==> r is None,
    {
        if index < self.before.len() {
            Some(&self.before[index])
        } else {
            let behind = index - self.before.len();
            if behind < self.after.len() {
                let raw = self.after.len() - 1 - behind;
                proof {
                    let a = self.after@;
                    assert(a.reverse()[behind as int] == a[raw as int]);
                    assert(self@[index as int] == a.reverse()[behind as int]);
                }
                Some(&self.after[raw])
            } else {
                None
            }
        }
    }

    /// Moves the cursor to logical index `pos`, sliding elements across the
    /// gap one by one. The content and the capacity are untouched; only the
    /// cursor changes. `pos` must not exceed `len()`: past the end there is no
    /// valid cursor placement, and a call there is a programmer error.
    pub fn set_position(&mut self, pos: usize)
        requires
            old(self).well_formed(),
            pos <= old(self)@.len(),
        ensures
            final(self).well_formed(),
            final(self)@ == old(self)@,
            final(self).spec_position() == pos,
            final(self).spec_capacity() == old(self).spec_capacity(),
    {
        let ghost v = old(self)@;
        while self.before.len() > pos
            invariant
                self.well_formed(),
                self@ == v,
                pos <= v.len(),
                self.spec_capacity() == old(self).spec_capacity(),
            decreases self.before@.len(),
        {
            let ghost b0 = self.before@;
            let ghost a0 = self.after@;
            let x = self.before.pop().unwrap();
            self.after.push(x);
            proof {
                lemma_reverse_unsnoc(b0);
                lemma_reverse_push(a0, x);
                assert(self.before@ =~= b0.drop_last());
                assert(self@ =~= b0 + a0.reverse());
            }
        }
        while self.before.len() < pos
            invariant
                self.well_formed(),
                self@ == v,
                pos <= v.len(),
                self.before@.len() <= pos,
                self.spec_capacity() == old(self).spec_capacity(),
            decreases pos - self.before@.len(),
        {
            let ghost b0 = self.before@;
            let ghost a0 = self.after@;
            proof {
                assert(v.len() == b0.len() + a0.len());
            }
            let x = self.after.pop().unwrap();
            self.before.push(x);
            proof {
                lemma_reverse_unsnoc(a0);
                assert(self.after@ =~= a0.drop_last());
                assert(self@ =~= b0 + a0.reverse());
            }
        }
    }

    /// Removes and returns the element immediately after the cursor: `None`
    /// when the cursor sits at the end and nothing follows it (a normal
    /// outcome, not an error), in which case nothing changes.
    pub fn remove(&mut self) -> (r: Option<T>)
        requires
            old(self).well_formed(),
        ensures
            final(self).well_formed(),
            final(self).spec_position() == old(self).spec_position(),
            final(self).spec_capacity() == old(self).spec_capacity(),
            old(self).spec_position() == old(self)@.len() ==> (r is None && final(self)@ == old(
                self,
            )@),
            old(self).spec_position() < old(self)@.len() ==> (r matches Some(x) && x == old(
                self,
            )@[old(self).spec_position()] && final(self)@ == old(self)@.remove(
                old(self).spec_position(),
            )),
    {
        let ghost b0 = self.before@;
        let ghost a0 = self.after@;
        let ghost v = self@;
        let ghost p = self.spec_position();
        let r = self.after.pop();
        proof {
            if a0.len() == 0 {
                assert(v =~= b0);
            } else {
                lemma_reverse_unsnoc(a0);
                assert(self.after@ =~= a0.drop_last());
                assert(v[p] == a0.reverse()[0]);
                assert(v.subrange(0, p) =~= b0);
                assert(v.subrange(p + 1, v.len() as int) =~= a0.drop_last().reverse());
                assert(self@ =~= v.remove(p));
            }
        }
        r
    }

    /// Inserts every element of `items` at the cursor, in order, as repeated
    /// single insertions would: the cursor ends immediately after the last
    /// inserted element, and the capacity ends where that run of insertions
    /// drives it.
    pub fn insert_iter(&mut self, items: Vec<T>)
        requires
            old(self).well_formed(),
            cap_after_inserts(
                old(self).spec_capacity(),
                old(self)@.len() as int,
                items@.len(),
            ) <= usize::MAX,
        ensures
            final(self).well_formed(),
            final(self)@ == old(self)@.subrange(0, old(self).spec_position()) + items@ + old(
                self,
            )@.subrange(old(self).spec_position(), old(self)@.len() as int),
            final(self).spec_position() == old(self).spec_position() + items@.len(),
            final(self).spec_capacity() == cap_after_inserts(
                old(self).spec_capacity(),
                old(self)@.len() as int,
                items@.len(),
            ),
            old(self).spec_capacity() <= final(self).spec_capacity(),
    {
        let ghost all = items@;
        let ghost v0 = self@;
        let ghost p0 = self.spec_position();
        let ghost l0 = self@.len() as int;
        let ghost c0 = self.spec_capacity();
        let ghost mut k: int = 0;
        let mut items = items;
        while items.len() > 0
            invariant
                self.well_formed(),
                0 <= k <= all.len(),
                items@ == all.subrange(k, all.len() as int),
                self@ == v0.subrange(0, p0) + all.subrange(0, k) + v0.subrange(p0, l0),
                self.spec_position() == p0 + k,
                self.spec_capacity() == cap_after_inserts(c0, l0, k as nat),
                0 <= p0 <= l0,
                l0 == v0.len(),
                0 <= c0,
                cap_after_inserts(c0, l0, all.len()) <= usize::MAX,
            decreases items@.len(),
        {
            let ghost vk = self@;
            let x = items.remove(0);
            proof {
                assert(x == all[k]);
                assert(items@ =~= all.subrange(k + 1, all.len() as int));
                assert(self@.len() == l0 + k);
                // The next insertion's growth, if any, stays within the bound
                // that the final capacity already satisfies.
                lemma_cap_after_inserts_snoc(c0, l0, k as nat);
                lemma_cap_after_inserts_monotone(c0, l0, (k + 1) as nat, all.len());
            }
            self.insert(x);
            proof {
                k = k + 1;
                assert(self@ =~= v0.subrange(0, p0) + all.subrange(0, k) + v0.subrange(p0, l0)) by {
                    assert(self@ == vk.insert(p0 + k - 1, x));
                    assert(vk.subrange(0, p0 + k - 1) =~= v0.subrange(0, p0) + all.subrange(
                        0,
                        k - 1,
                    ));
                    assert(vk.subrange(p0 + k - 1, vk.len() as int) =~= v0.subrange(p0, l0));
                }
            }
        }
        proof {
            assert(k == all.len());
            assert(all.subrange(0, k) =~= all);
            lemma_cap_after_inserts_monotone(c0, l0, 0, all.len());
        }
    }
}

/// One editing step at the cursor, as the logical content sees it. `insert`
/// and `remove` promise in their contracts that the content and cursor change
/// by exactly `edit_content` and `edit_position` of the matching step.
pub enum Edit<T> {
    /// A single insertion at the cursor.
    Insert(T),
    /// A removal of the element after the cursor; it fails, changing nothing,
    /// when the cursor sits at the end.
    Remove,
}

/// What one editing step leaves of content `v` with the cursor at `p`.
pub open spec fn edit_content<T>(v: Seq<T>, p: int, e: Edit<T>) -> Seq<T> {
    match e {
        Edit::Insert(x) => v.insert(p, x),
        Edit::Remove => if p < v.len() {
            v.remove(p)
        } else {
            v
        },
    }
}

/// Where one editing step leaves the cursor.
pub open spec fn edit_position<T>(v: Seq<T>, p: int, e: Edit<T>) -> int {
    match e {
        Edit::Insert(_) => p + 1,
        Edit::Remove => p,
    }
}

/// The content and cursor a whole run of editing steps leaves behind.
pub open spec fn apply_edits<T>(v: Seq<T>, p: int, es: Seq<Edit<T>>) -> (Seq<T>, int)
    decreases es.len(),
{
    if es.len() == 0 {
        (v, p)
    } else {
        apply_edits(edit_content(v, p, es[0]), edit_position(v, p, es[0]), es.drop_first())
    }
}

/// The net element count of a run of editing steps: one gained per insertion,
/// one lost per removal that succeeds (a removal at the end fails and counts
/// for nothing).
pub open spec fn net_inserted<T>(v: Seq<T>, p: int, es: Seq<Edit<T>>) -> int
    decreases es.len(),
{
    if es.len() == 0 {
        0
    } else {
        let d: int = match es[0] {
            Edit::Insert(_) => 1,
            Edit::Remove => if p < v.len() {
                -1
            } else {
                0
            },
        };
        d + net_inserted(edit_content(v, p, es[0]), edit_position(v, p, es[0]), es.drop_first())
    }
}

/// Length conservation: after any run of single insertions and removals, the
/// length equals the starting length plus the successful insertions minus the
/// successful removals — and the cursor is still a valid position.
pub proof fn lemma_length_conservation<T>(v: Seq<T>, p: int, es: Seq<Edit<T>>)
    requires
        0 <= p <= v.len(),
    ensures
        apply_edits(v, p, es).0.len() == v.len() + net_inserted(v, p, es),
        0 <= apply_edits(v, p, es).1 <= apply_edits(v, p, es).0.len(),
    decreases es.len(),
{
    if es.len() > 0 {
        let v1 = edit_content(v, p, es[0]);
        let p1 = edit_position(v, p, es[0]);
        match es[0] {
            Edit::Insert(x) => {
                assert(v1.len() == v.len() + 1);
            },
            Edit::Remove => {},
        }
        lemma_length_conservation(v1, p1, es.drop_first());
    }
}

/// Growth transparency, content half: an insertion at cursor `p` keeps every
/// element already held — below `p` at its old index, at or above `p` shifted
/// up by one — so nothing is lost, duplicated, or reordered, whether or not
/// the insertion had to grow the buffer first (`insert` promises the content
/// changes by exactly `Seq::insert` in either case).
pub proof fn lemma_insert_preserves_elements<T>(v: Seq<T>, p: int, x: T)
    requires
        0 <= p <= v.len(),
    ensures
        v.insert(p, x).len() == v.len() + 1,
        v.insert(p, x)[p] == x,
        forall|i: int| 0 <= i < p ==> #[trigger] v.insert(p, x)[i] == v[i],
        forall|i: int| p <= i < v.len() ==> v.insert(p, x)[i + 1] == v[i],
{
}

} // verus!
