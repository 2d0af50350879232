//! The scope stack: frames of variable bindings, the global one at the bottom.
use crate::value::{entries_get, entries_view, find_entry, first_key, Val, Value};
use vstd::prelude::*;

verus! {

/// One frame: names bound to values; the first entry with a name wins.
pub type SymbolTable = Vec<(String, Value)>;

/// The stack of live frames; frame 0 is the global frame.
#[derive(Debug)]
pub struct Context {
    pub call_stack: Vec<SymbolTable>,
}

/// The model of a frame.
pub type FrameView = Seq<(Seq<char>, Val)>;

/// `new` is `old` with `k` bound to `v` and every other name as it was.
pub open spec fn frame_put(old: FrameView, new: FrameView, k: Seq<char>, v: Val) -> bool {
    forall|k2: Seq<char>|
        #[trigger] entries_get(new, k2) == if k2 == k {
            Some(v)
        } else {
            entries_get(old, k2)
        }
}

/// The frame with `k` bound to `v`: the first entry named `k` is
/// overwritten, or a new entry appended.
pub open spec fn frame_set(e: FrameView, k: Seq<char>, v: Val) -> FrameView {
    match first_key(e, k) {
        Some(j) => e.update(j, (k, v)),
        None => e.push((k, v)),
    }
}

/// The stack with `k` bound to `v` in its top frame.
pub open spec fn top_set(s: Seq<FrameView>, k: Seq<char>, v: Val) -> Seq<FrameView> {
    s.update(s.len() - 1, frame_set(s.last(), k, v))
}

/// The stack with `k` rebound to `v` in the frame it resolves in; unchanged
/// when no frame binds `k`.
pub open spec fn stack_set(s: Seq<FrameView>, k: Seq<char>, v: Val) -> Seq<FrameView> {
    match frame_index(s, k) {
        Some(i) => s.update(i, frame_set(s[i], k, v)),
        None => s,
    }
}

/// The index of the topmost frame that binds `k`.
pub open spec fn frame_index(frames: Seq<FrameView>, k: Seq<char>) -> Option<int>
    decreases frames.len(),
{
    if frames.len() == 0 {
        None
    } else if entries_get(frames.last(), k) is Some {
        Some(frames.len() - 1)
    } else {
        frame_index(frames.drop_last(), k)
    }
}

/// What `k` resolves to: its binding in the topmost frame that has one.
pub open spec fn stack_get(frames: Seq<FrameView>, k: Seq<char>) -> Option<Val>
    decreases frames.len(),
{
    if frames.len() == 0 {
        None
    } else {
        match entries_get(frames.last(), k) {
            Some(v) => Some(v),
            None => stack_get(frames.drop_last(), k),
        }
    }
}

/// The stack after `k` is bound to `v` in the frame it resolves in.
pub open spec fn stack_assigned(
    old: Seq<FrameView>,
    new: Seq<FrameView>,
    k: Seq<char>,
    v: Val,
) -> bool {
    match frame_index(old, k) {
        Some(i) => new.len() == old.len() && frame_put(old[i], new[i], k, v) && forall|j: int|
            0 <= j < old.len() && j != i ==> new[j] == old[j],
        None => new == old,
    }
}

pub proof fn lemma_frame_index_bounds(frames: Seq<FrameView>, k: Seq<char>)
    ensures
        match frame_index(frames, k) {
            Some(i) => 0 <= i < frames.len() && entries_get(frames[i], k) is Some
                && stack_get(frames, k) == entries_get(frames[i], k) && forall|j: int|
                i < j < frames.len() ==> entries_get(#[trigger] frames[j], k) is None,
            None => stack_get(frames, k) is None,
        },
    decreases frames.len(),
{
    if frames.len() > 0 {
        let d = frames.drop_last();
        lemma_frame_index_bounds(d, k);
        if entries_get(frames.last(), k) is None {
            match frame_index(d, k) {
                Some(i) => {
                    assert(frames[i] == d[i]);
                    assert forall|j: int| i < j < frames.len() implies entries_get(
                        #[trigger] frames[j],
                        k,
                    ) is None by {
                        if j < frames.len() - 1 {
                            assert(frames[j] == d[j]);
                        }
                    }
                },
                None => {},
            }
        }
    }
}

/// A name resolves in the topmost frame that binds it.
pub proof fn lemma_stack_get_at(frames: Seq<FrameView>, k: Seq<char>, i: int)
    requires
        0 <= i < frames.len(),
        entries_get(frames[i], k) is Some,
        forall|j: int| i < j < frames.len() ==> entries_get(#[trigger] frames[j], k) is None,
    ensures
        stack_get(frames, k) == entries_get(frames[i], k),
    decreases frames.len(),
{
    if i < frames.len() - 1 {
        let d = frames.drop_last();
        assert forall|j: int| i < j < d.len() implies entries_get(#[trigger] d[j], k) is None by {
            assert(d[j] == frames[j]);
        }
        assert(entries_get(frames[frames.len() - 1], k) is None);
        lemma_stack_get_at(d, k, i);
        assert(d[i] == frames[i]);
    }
}

/// Overwriting the value of an entry named `k` binds `k` to the new value.
pub proof fn lemma_entries_overwrite(e: FrameView, j: int, k: Seq<char>, v: Val)
    requires
        0 <= j < e.len(),
        e[j].0 == k,
        forall|i: int| 0 <= i < j ==> e[i].0 != k,
    ensures
        frame_put(e, e.update(j, (k, v)), k, v),
    decreases e.len(),
{
    let n = e.update(j, (k, v));
    assert forall|k2: Seq<char>| #[trigger]
        entries_get(n, k2) == if k2 == k {
            Some(v)
        } else {
            entries_get(e, k2)
        } by {
        lemma_entries_overwrite_at(e, j, k, v, k2);
    }
}

proof fn lemma_entries_overwrite_at(e: FrameView, j: int, k: Seq<char>, v: Val, k2: Seq<char>)
    requires
        0 <= j < e.len(),
        e[j].0 == k,
        forall|i: int| 0 <= i < j ==> e[i].0 != k,
    ensures
        entries_get(e.update(j, (k, v)), k2) == if k2 == k {
            Some(v)
        } else {
            entries_get(e, k2)
        },
    decreases e.len(),
{
    let n = e.update(j, (k, v));
    if j > 0 {
        let t = e.drop_first();
        assert forall|i: int| 0 <= i < j - 1 implies t[i].0 != k by {
            assert(t[i] == e[i + 1]);
        }
        lemma_entries_overwrite_at(t, j - 1, k, v, k2);
        assert(n.drop_first() =~= t.update(j - 1, (k, v)));
        assert(n[0] == e[0]);
    } else {
        assert(n.drop_first() =~= e.drop_first());
    }
}

/// Appending an entry binds its name where no earlier entry did.
pub proof fn lemma_entries_append(e: FrameView, k: Seq<char>, v: Val)
    requires
        entries_get(e, k) is None,
    ensures
        frame_put(e, e.push((k, v)), k, v),
{
    assert forall|k2: Seq<char>| #[trigger]
        entries_get(e.push((k, v)), k2) == if k2 == k {
            Some(v)
        } else {
            entries_get(e, k2)
        } by {
        lemma_entries_append_at(e, k, v, k2);
    }
}

proof fn lemma_entries_append_at(e: FrameView, k: Seq<char>, v: Val, k2: Seq<char>)
    requires
        entries_get(e, k) is None,
    ensures
        entries_get(e.push((k, v)), k2) == if k2 == k {
            Some(v)
        } else {
            entries_get(e, k2)
        },
    decreases e.len(),
{
    let n = e.push((k, v));
    if e.len() > 0 {
        assert(n[0] == e[0]);
        assert(e[0].0 != k);
        assert(n.drop_first() =~= e.drop_first().push((k, v)));
        lemma_entries_append_at(e.drop_first(), k, v, k2);
    } else {
        assert(n[0] == (k, v));
        assert(n.drop_first() =~= Seq::<(Seq<char>, Val)>::empty());
        assert(entries_get(n.drop_first(), k2) is None);
        assert(entries_get(e, k2) is None);
    }
}

impl View for Context {
    type V = Seq<FrameView>;

    open spec fn view(&self) -> Seq<FrameView> {
        self.call_stack@.map_values(|f: SymbolTable| entries_view(f@))
    }
}

/// Binds `name` to `v` in a frame: overwrites the first entry with that name,
/// or appends one.
fn frame_insert(frame: &mut SymbolTable, name: String, v: Value)
    ensures
        frame_put(entries_view(old(frame)@), entries_view(final(frame)@), name@, v@),
        entries_view(final(frame)@) == frame_set(entries_view(old(frame)@), name@, v@),
{
    let ghost e = entries_view(frame@);
    let ghost k = name@;
    let ghost w = v@;
    match find_entry(frame, &name) {
        Some(j) => {
            proof {
                assert forall|i: int| 0 <= i < j implies e[i].0 != k by {
                    assert(e[i].0 == frame[i].0@);
                }
                lemma_entries_overwrite(e, j as int, k, w);
            }
            frame.set(j, (name, v));
            assert(entries_view(frame@) =~= e.update(j as int, (k, w)));
        },
        None => {
            proof {
                lemma_entries_append(e, k, w);
            }
            frame.push((name, v));
            assert(entries_view(frame@) =~= e.push((k, w)));
        },
    }
}

impl Context {
    /// A stack holding one empty global frame.
    pub fn new() -> (r: Context)
        ensures
            r@ == seq![Seq::<(Seq<char>, Val)>::empty()],
    {
        let global: SymbolTable = Vec::new();
        assert(entries_view(global@) =~= Seq::<(Seq<char>, Val)>::empty());
        let mut call_stack: Vec<SymbolTable> = Vec::new();
        call_stack.push(global);
        let r = Context { call_stack };
        assert(r@[0] == entries_view(global@));
        assert(r@ =~= seq![Seq::<(Seq<char>, Val)>::empty()]);
        r
    }

    /// The number of live frames.
    pub fn depth(&self) -> (r: usize)
        ensures
            r == self@.len(),
    {
        self.call_stack.len()
    }

    /// Pushes a frame whose bindings are `frame`.
    pub fn push_frame(&mut self, frame: SymbolTable)
        ensures
            final(self)@ == old(self)@.push(entries_view(frame@)),
    {
        self.call_stack.push(frame);
        assert(final(self)@ =~= old(self)@.push(entries_view(frame@)));
    }

    /// Pushes an empty frame.
    pub fn push_scope(&mut self)
        ensures
            final(self)@ == old(self)@.push(Seq::empty()),
    {
        let frame: SymbolTable = Vec::new();
        assert(entries_view(frame@) =~= Seq::<(Seq<char>, Val)>::empty());
        self.push_frame(frame);
    }

    /// Removes the top frame; the global frame is never removed.
    pub fn pop_scope(&mut self)
        requires
            old(self)@.len() > 1,
        ensures
            final(self)@ == old(self)@.drop_last(),
    {
        self.call_stack.pop();
        assert(final(self)@ =~= old(self)@.drop_last());
    }

    /// Binds `name` to `v` in the top frame.
    pub fn declare(&mut self, name: String, v: Value)
        requires
            old(self)@.len() > 0,
        ensures
            final(self)@.len() == old(self)@.len(),
            frame_put(old(self)@.last(), final(self)@.last(), name@, v@),
            forall|j: int|
                0 <= j < old(self)@.len() - 1 ==> #[trigger] final(self)@[j] == old(self)@[j],
            final(self)@ == top_set(old(self)@, name@, v@),
            keys_unique(old(self)@.last()) ==> keys_unique(final(self)@.last()),
    {
        let top = self.call_stack.len() - 1;
        proof {
            if keys_unique(self@.last()) {
                lemma_frame_set_unique(self@.last(), name@, v@);
            }
        }
        self.bind_in(top, name, v);
    }

    /// Binds `name` to `v` in the global frame.
    pub fn declare_global(&mut self, name: String, v: Value)
        requires
            old(self)@.len() > 0,
        ensures
            final(self)@.len() == old(self)@.len(),
            frame_put(old(self)@[0], final(self)@[0], name@, v@),
            forall|j: int| 0 < j < old(self)@.len() ==> #[trigger] final(self)@[j] == old(self)@[j],
            final(self)@ == old(self)@.update(0, frame_set(old(self)@[0], name@, v@)),
            keys_unique(old(self)@[0]) ==> keys_unique(final(self)@[0]),
    {
        proof {
            if keys_unique(self@[0]) {
                lemma_frame_set_unique(self@[0], name@, v@);
            }
        }
        self.bind_in(0, name, v);
    }

    fn bind_in(&mut self, i: usize, name: String, v: Value)
        requires
            i < old(self)@.len(),
        ensures
            final(self)@.len() == old(self)@.len(),
            frame_put(old(self)@[i as int], final(self)@[i as int], name@, v@),
            forall|j: int|
                0 <= j < old(self)@.len() && j != i ==> #[trigger] final(self)@[j] == old(self)@[j],
            final(self)@ == old(self)@.update(i as int, frame_set(old(self)@[i as int], name@, v@)),
    {
        let ghost before = self@;
        let ghost stack = self.call_stack@;
        frame_insert(&mut self.call_stack[i], name, v);
        assert forall|j: int| 0 <= j < before.len() && j != i implies #[trigger] self@[j]
            == before[j] by {
            assert(self.call_stack@[j] == stack[j]);
        }
        assert(self@ =~= before.update(i as int, frame_set(before[i as int], name@, v@)));
    }

    /// The index of the topmost frame that binds `varname`.
    pub fn search_in_stack(&self, varname: &String) -> (r: Option<usize>)
        ensures
            match r {
                Some(i) => frame_index(self@, varname@) == Some(i as int),
                None => frame_index(self@, varname@) is None,
            },
    {
        let mut i: usize = self.call_stack.len();
        assert(self@.subrange(0, i as int) =~= self@);
        while i > 0
            invariant
                i <= self.call_stack.len(),
                frame_index(self@, varname@) == frame_index(self@.subrange(0, i as int), varname@),
            decreases i,
        {
            let ghost pre = self@.subrange(0, i as int);
            assert(pre.drop_last() =~= self@.subrange(0, i - 1));
            assert(pre.last() == entries_view(self.call_stack[i - 1]@));
            if find_entry(&self.call_stack[i - 1], varname).is_some() {
                return Some(i - 1);
            }
            i -= 1;
        }
        None
    }

    /// A copy of what `varname` resolves to.
    pub fn lookup(&self, varname: &String) -> (r: Option<Value>)
        ensures
            match r {
                Some(v) => stack_get(self@, varname@) == Some(v@),
                None => stack_get(self@, varname@) is None,
            },
    {
        proof {
            lemma_frame_index_bounds(self@, varname@);
        }
        match self.search_in_stack(varname) {
            Some(i) => match find_entry(&self.call_stack[i], varname) {
                Some(j) => Some(self.call_stack[i][j].1.deep_copy()),
                None => None,
            },
            None => None,
        }
    }

    /// A copy of what the global frame binds `varname` to.
    pub fn global_get(&self, varname: &String) -> (r: Option<Value>)
        requires
            self@.len() > 0,
        ensures
            match r {
                Some(v) => entries_get(self@[0], varname@) == Some(v@),
                None => entries_get(self@[0], varname@) is None,
            },
    {
        match find_entry(&self.call_stack[0], varname) {
            Some(j) => Some(self.call_stack[0][j].1.deep_copy()),
            None => None,
        }
    }

    /// Rebinds `varname` in the frame it resolves in; false, with nothing
    /// changed, when no frame binds it.
    pub fn assign(&mut self, varname: String, v: Value) -> (r: bool)
        ensures
            r == (stack_get(old(self)@, varname@) is Some),
            stack_assigned(old(self)@, final(self)@, varname@, v@),
            r ==> stack_get(final(self)@, varname@) == Some(v@),
            final(self)@.len() == old(self)@.len(),
            final(self)@ == stack_set(old(self)@, varname@, v@),
    {
        proof {
            lemma_frame_index_bounds(self@, varname@);
        }
        let ghost k = varname@;
        let ghost w = v@;
        let ghost before = self@;
        match self.search_in_stack(&varname) {
            Some(i) => {
                self.bind_in(i, varname, v);
                proof {
                    assert(entries_get(self@[i as int], k) == Some(w));
                    assert forall|j: int| i < j < self@.len() implies entries_get(
                        #[trigger] self@[j],
                        k,
                    ) is None by {
                        assert(self@[j] == before[j]);
                    }
                    lemma_stack_get_at(self@, k, i as int);
                }
                true
            },
            None => false,
        }
    }
}

} // verus!

verus! {

/// No two entries of a frame (or of an object's fields) share a name.
pub open spec fn keys_unique(e: FrameView) -> bool {
    forall|a: int, b: int| 0 <= a < b < e.len() ==> e[a].0 != e[b].0
}

/// A name with no first entry has no entry at all.
pub proof fn lemma_first_key_none(e: FrameView, k: Seq<char>)
    requires
        first_key(e, k) is None,
    ensures
        forall|a: int| 0 <= a < e.len() ==> e[a].0 != k,
    decreases e.len(),
{
    if e.len() > 0 {
        lemma_first_key_none(e.drop_first(), k);
        assert forall|a: int| 0 <= a < e.len() implies e[a].0 != k by {
            if a > 0 {
                assert(e[a] == e.drop_first()[a - 1]);
            }
        }
    }
}

/// The first entry with a name has that name.
pub proof fn lemma_first_key_some(e: FrameView, k: Seq<char>)
    requires
        first_key(e, k) is Some,
    ensures
        0 <= first_key(e, k)->0 < e.len(),
        e[first_key(e, k)->0].0 == k,
    decreases e.len(),
{
    if e.len() > 0 && e[0].0 != k {
        lemma_first_key_some(e.drop_first(), k);
    }
}

/// Binding a name keeps the names of a frame unique: the frame stays a map.
pub proof fn lemma_frame_set_unique(e: FrameView, k: Seq<char>, v: Val)
    requires
        keys_unique(e),
    ensures
        keys_unique(frame_set(e, k, v)),
{
    match first_key(e, k) {
        Some(j) => {
            lemma_first_key_some(e, k);
            let f = frame_set(e, k, v);
            assert forall|a: int, b: int| 0 <= a < b < f.len() implies f[a].0 != f[b].0 by {
                assert(f[a].0 == e[a].0);
                assert(f[b].0 == e[b].0);
            }
        },
        None => {
            lemma_first_key_none(e, k);
            let f = frame_set(e, k, v);
            assert forall|a: int, b: int| 0 <= a < b < f.len() implies f[a].0 != f[b].0 by {
                if b == e.len() {
                    assert(f[a] == e[a]);
                } else {
                    assert(f[a] == e[a] && f[b] == e[b]);
                }
            }
        },
    }
}

} // verus!
