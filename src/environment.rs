use vstd::prelude::*;
use crate::token::Token;
use crate::value::{RuntimeError, Value, ValueV};

verus! {

/// One level of scope: names bound to values (a removed name keeps its
/// slot, holding `None`) and the index of the enclosing level.
#[derive(Debug)]
pub struct Frame {
    pub names: Vec<String>,
    pub values: Vec<Option<Value>>,
    pub outer: Option<usize>,
}

/// The scopes of a running program, as an arena of frames addressed by
/// index. Frame 0 holds the globals; a function value keeps the index of
/// the frame it was defined in. Only frames below `captured` may be named
/// by a function value: the frames above it can be released.
#[derive(Debug)]
pub struct Environment {
    pub frames: Vec<Frame>,
    pub captured: usize,
}

/// The first slot of `names` that holds `name`, or -1.
pub open spec fn find(names: Seq<String>, name: Seq<char>) -> int
    decreases names.len(),
{
    if names.len() == 0 {
        -1
    } else {
        let i = find(names.drop_last(), name);
        if i >= 0 {
            i
        } else if names.last()@ == name {
            names.len() - 1
        } else {
            -1
        }
    }
}

/// The value bound to `name` in the frame itself.
pub open spec fn local(f: Frame, name: Seq<char>) -> Option<Value> {
    let i = find(f.names@, name);
    if 0 <= i < f.values@.len() {
        f.values@[i]
    } else {
        None
    }
}

/// The value of `name` seen from frame `i`: its own binding, else the one
/// seen from the enclosing frame.
pub open spec fn lookup(frames: Seq<Frame>, i: int, name: Seq<char>) -> Option<Value>
    decreases i,
{
    if !(0 <= i < frames.len()) {
        None
    } else {
        match local(frames[i], name) {
            Some(v) => Some(v),
            None => match frames[i].outer {
                Some(o) => if o < i {
                    lookup(frames, o as int, name)
                } else {
                    None
                },
                None => None,
            },
        }
    }
}

/// The frame, seen from frame `i`, that binds `name`.
pub open spec fn binder(frames: Seq<Frame>, i: int, name: Seq<char>) -> Option<int>
    decreases i,
{
    if !(0 <= i < frames.len()) {
        None
    } else {
        match local(frames[i], name) {
            Some(_) => Some(i),
            None => match frames[i].outer {
                Some(o) => if o < i {
                    binder(frames, o as int, name)
                } else {
                    None
                },
                None => None,
            },
        }
    }
}

/// The mathematical content of a frame.
pub struct FrameV {
    pub names: Seq<Seq<char>>,
    pub values: Seq<Option<ValueV>>,
    pub outer: Option<usize>,
}

pub open spec fn strings_view(s: Seq<String>) -> Seq<Seq<char>> {
    s.map_values(|x: String| x@)
}

pub open spec fn slot_view(o: Option<Value>) -> Option<ValueV> {
    match o {
        Some(v) => Some(v@),
        None => None,
    }
}

pub open spec fn slots_view(s: Seq<Option<Value>>) -> Seq<Option<ValueV>> {
    s.map_values(|o: Option<Value>| slot_view(o))
}

pub open spec fn frame_view(f: Frame) -> FrameV {
    FrameV { names: strings_view(f.names@), values: slots_view(f.values@), outer: f.outer }
}

pub open spec fn frames_view(fs: Seq<Frame>) -> Seq<FrameV> {
    fs.map_values(|f: Frame| frame_view(f))
}

/// The first slot of `names` that holds `name`, or -1.
pub open spec fn findv(names: Seq<Seq<char>>, name: Seq<char>) -> int
    decreases names.len(),
{
    if names.len() == 0 {
        -1
    } else {
        let i = findv(names.drop_last(), name);
        if i >= 0 {
            i
        } else if names.last() == name {
            names.len() - 1
        } else {
            -1
        }
    }
}

/// The value bound to `name` in the frame itself.
pub open spec fn localv(f: FrameV, name: Seq<char>) -> Option<ValueV> {
    let i = findv(f.names, name);
    if 0 <= i < f.values.len() {
        f.values[i]
    } else {
        None
    }
}

/// The value of `name` seen from frame `i`, searching outward.
pub open spec fn lookupv(frames: Seq<FrameV>, i: int, name: Seq<char>) -> Option<ValueV>
    decreases i,
{
    if !(0 <= i < frames.len()) {
        None
    } else {
        match localv(frames[i], name) {
            Some(v) => Some(v),
            None => match frames[i].outer {
                Some(o) => if o < i {
                    lookupv(frames, o as int, name)
                } else {
                    None
                },
                None => None,
            },
        }
    }
}

/// The frame, seen from frame `i`, that binds `name`.
pub open spec fn binderv(frames: Seq<FrameV>, i: int, name: Seq<char>) -> Option<int>
    decreases i,
{
    if !(0 <= i < frames.len()) {
        None
    } else {
        match localv(frames[i], name) {
            Some(_) => Some(i),
            None => match frames[i].outer {
                Some(o) => if o < i {
                    binderv(frames, o as int, name)
                } else {
                    None
                },
                None => None,
            },
        }
    }
}

/// Binding `name` to `v` in frame `f` itself.
pub open spec fn setv(fs: Seq<FrameV>, f: int, name: Seq<char>, v: ValueV) -> Seq<FrameV> {
    let fr = fs[f];
    let i = findv(fr.names, name);
    if i >= 0 {
        fs.update(f, FrameV { names: fr.names, values: fr.values.update(i, Some(v)), outer: fr.outer })
    } else {
        fs.update(f, FrameV { names: fr.names.push(name), values: fr.values.push(Some(v)), outer: fr.outer })
    }
}

/// Removing the binding of `name` from frame `j`.
pub open spec fn removev(fs: Seq<FrameV>, j: int, name: Seq<char>) -> Seq<FrameV> {
    let fr = fs[j];
    fs.update(j, FrameV { names: fr.names, values: fr.values.update(findv(fr.names, name), None), outer: fr.outer })
}

/// A new empty frame chained to `outer`.
pub open spec fn empty_frame(outer: usize) -> FrameV {
    FrameV { names: Seq::empty(), values: Seq::empty(), outer: Some(outer) }
}

proof fn lemma_find_view(names: Seq<String>, name: Seq<char>)
    ensures
        find(names, name) == findv(strings_view(names), name),
    decreases names.len(),
{
    if names.len() > 0 {
        lemma_find_view(names.drop_last(), name);
        assert(strings_view(names.drop_last()) =~= strings_view(names).drop_last());
    }
}

proof fn lemma_local_view(f: Frame, name: Seq<char>)
    requires
        f.names@.len() == f.values@.len(),
    ensures
        slot_view(local(f, name)) == localv(frame_view(f), name),
{
    lemma_find_view(f.names@, name);
}

proof fn lemma_lookup_view(fs: Seq<Frame>, i: int, name: Seq<char>)
    requires
        forall|k: int| 0 <= k < fs.len() ==> (#[trigger] fs[k]).names@.len() == fs[k].values@.len(),
    ensures
        slot_view(lookup(fs, i, name)) == lookupv(frames_view(fs), i, name),
        binder(fs, i, name) == binderv(frames_view(fs), i, name),
    decreases i,
{
    if 0 <= i < fs.len() {
        lemma_local_view(fs[i], name);
        assert(frames_view(fs)[i] == frame_view(fs[i]));
        match fs[i].outer {
            Some(o) => if o < i {
                lemma_lookup_view(fs, o as int, name);
            },
            None => {},
        }
    }
}

/// A value that names a frame names one of the first `n`.
pub open spec fn value_ok(v: Value, n: nat) -> bool {
    v matches Value::UserFunction(f) ==> f.closure < n
}

pub open spec fn frame_ok(f: Frame, i: int, n: nat) -> bool {
    &&& f.names@.len() == f.values@.len()
    &&& f.outer matches Some(o) ==> o < i
    &&& forall|k: int| 0 <= k < f.values@.len() ==> slot_ok(#[trigger] f.values@[k], n)
}

pub open spec fn slot_ok(s: Option<Value>, n: nat) -> bool {
    match s {
        Some(v) => value_ok(v, n),
        None => true,
    }
}

pub open spec fn undefined(name: Token) -> RuntimeError {
    RuntimeError::UndefinedVariable { name: name.lexeme, line: name.line }
}

proof fn lemma_find_bounds(names: Seq<String>, name: Seq<char>)
    ensures
        -1 <= find(names, name) < names.len(),
        find(names, name) >= 0 ==> names[find(names, name)]@ == name,
    decreases names.len(),
{
    if names.len() > 0 {
        lemma_find_bounds(names.drop_last(), name);
    }
}

proof fn lemma_find_push(names: Seq<String>, s: String, name: Seq<char>)
    ensures
        find(names.push(s), name) == if find(names, name) >= 0 {
            find(names, name)
        } else if s@ == name {
            names.len() as int
        } else {
            -1
        },
{
    assert(names.push(s).drop_last() =~= names);
}

impl Environment {
    pub open spec fn wf(&self) -> bool {
        &&& self.frames@.len() > 0
        &&& self.frames@[0].outer is None
        &&& self.captured <= self.frames@.len()
        &&& forall|i: int| 0 <= i < self.frames@.len() ==> frame_ok(#[trigger] self.frames@[i], i, self.captured as nat)
    }

    /// An environment with one empty global frame.
    pub fn new() -> (r: Environment)
        ensures
            r.wf(),
            r.frames@.len() == 1,
            forall|n: Seq<char>| lookup(r.frames@, 0, n) is None,
            r.captured == 0,
            frames_view(r.frames@) == seq![FrameV { names: Seq::empty(), values: Seq::empty(), outer: None }],
    {
        let mut frames: Vec<Frame> = Vec::new();
        let f = Frame { names: Vec::new(), values: Vec::new(), outer: None };
        proof {
            assert(frame_view(f) =~= FrameV { names: Seq::empty(), values: Seq::empty(), outer: None }) by {
                assert(strings_view(f.names@) =~= Seq::<Seq<char>>::empty());
                assert(slots_view(f.values@) =~= Seq::<Option<ValueV>>::empty());
            }
        }
        frames.push(f);
        assert(frames_view(frames@) =~= seq![FrameV { names: Seq::empty(), values: Seq::empty(), outer: None }]);
        Environment { frames, captured: 0 }
    }

    /// Creates a new empty level chained to frame `outer`, and returns its index.
    pub fn new_outer(&mut self, outer: usize) -> (r: usize)
        requires
            old(self).wf(),
            outer < old(self).frames@.len(),
        ensures
            final(self).wf(),
            r == old(self).frames@.len(),
            final(self).frames@.len() == old(self).frames@.len() + 1,
            final(self).frames@.subrange(0, r as int) == old(self).frames@,
            final(self).frames@[r as int].outer == Some(outer),
            final(self).captured == old(self).captured,
            frames_view(final(self).frames@) == frames_view(old(self).frames@).push(empty_frame(outer)),
            forall|n: Seq<char>| local(#[trigger] final(self).frames@[r as int], n) is None,
    {
        let r = self.frames.len();
        let f = Frame { names: Vec::new(), values: Vec::new(), outer: Some(outer) };
        let ghost before = self.frames@;
        self.frames.push(f);
        assert(self.frames@.subrange(0, r as int) =~= before);
        assert(frame_view(f) =~= empty_frame(outer)) by {
            assert(strings_view(f.names@) =~= Seq::<Seq<char>>::empty());
            assert(slots_view(f.values@) =~= Seq::<Option<ValueV>>::empty());
        }
        assert(frames_view(self.frames@) =~= frames_view(before).push(empty_frame(outer)));
        assert forall|i: int| 0 <= i < self.frames@.len() implies frame_ok(
            #[trigger] self.frames@[i],
            i,
            self.captured as nat,
        ) by {
            if i < r {
                assert(frame_ok(before[i], i, self.captured as nat));
            }
        }
        r
    }

    /// Returns the value bound to the name, searching outward from `frame`.
    pub fn get(&self, frame: usize, name: &Token) -> (r: Result<Value, RuntimeError>)
        requires
            self.wf(),
            frame < self.frames@.len(),
        ensures
            r == match lookup(self.frames@, frame as int, name.lexeme@) {
                Some(v) => Ok(v),
                None => Err(undefined(*name)),
            },
            r matches Ok(v) ==> value_ok(v, self.captured as nat),
            crate::value::result_view(r) == match lookupv(frames_view(self.frames@), frame as int, name.lexeme@) {
                Some(v) => Ok(v),
                None => Err(undefined(*name)),
            },
    {
        proof {
            lemma_lookup_view(self.frames@, frame as int, name.lexeme@);
        }
        let mut i = frame;
        loop
            invariant
                self.wf(),
                i < self.frames@.len(),
                lookup(self.frames@, i as int, name.lexeme@) == lookup(self.frames@, frame as int, name.lexeme@),
                slot_view(lookup(self.frames@, frame as int, name.lexeme@)) == lookupv(
                    frames_view(self.frames@),
                    frame as int,
                    name.lexeme@,
                ),
            decreases i,
        {
            let f = &self.frames[i];
            assert(frame_ok(self.frames@[i as int], i as int, self.captured as nat));
            assert(*f == self.frames@[i as int]);
            proof {
                lemma_find_bounds(f.names@, name.lexeme@);
            }
            match slot_of(f, &name.lexeme) {
                Some(k) => match &f.values[k] {
                    Some(v) => {
                        assert(slot_ok(f.values@[k as int], self.captured as nat));
                        assert(local(*f, name.lexeme@) == Some(*v));
                        assert(lookup(self.frames@, i as int, name.lexeme@) == Some(*v));
                        return Ok(v.copy());
                    },
                    None => {},
                },
                None => {},
            }
            assert(local(*f, name.lexeme@) is None);
            match f.outer {
                Some(o) => {
                    assert(lookup(self.frames@, i as int, name.lexeme@) == lookup(self.frames@, o as int, name.lexeme@));
                    i = o;
                },
                None => {
                    return Err(RuntimeError::UndefinedVariable { name: name.lexeme.clone(), line: name.line });
                },
            }
        }
    }
}

impl Environment {
    /// Marks frame `frame` (and so every frame below it) as one a function
    /// value may name.
    pub fn capture(&mut self, frame: usize)
        requires
            old(self).wf(),
            frame < old(self).frames@.len(),
        ensures
            final(self).wf(),
            final(self).frames == old(self).frames,
            final(self).captured == if frame >= old(self).captured {
                (frame + 1) as usize
            } else {
                old(self).captured
            },
            final(self).captured > frame,
    {
        let n = self.frames.len();
        if frame >= self.captured {
            let ghost before = self.frames@;
            let ghost c0 = self.captured;
            self.captured = frame + 1;
            assert forall|i: int| 0 <= i < self.frames@.len() implies frame_ok(
                #[trigger] self.frames@[i],
                i,
                self.captured as nat,
            ) by {
                assert(frame_ok(before[i], i, c0 as nat));
                assert forall|x: int| 0 <= x < self.frames@[i].values@.len() implies slot_ok(
                    #[trigger] self.frames@[i].values@[x],
                    self.captured as nat,
                ) by {
                    assert(slot_ok(before[i].values@[x], c0 as nat));
                }
            }
        }
    }

    /// Drops the frames from `keep` on, none of which a function value names.
    pub fn release(&mut self, keep: usize)
        requires
            old(self).wf(),
            old(self).captured <= keep <= old(self).frames@.len(),
            keep > 0,
        ensures
            final(self).wf(),
            final(self).frames@ == old(self).frames@.subrange(0, keep as int),
            final(self).captured == old(self).captured,
            frames_view(final(self).frames@) == frames_view(old(self).frames@).subrange(0, keep as int),
    {
        let ghost before = self.frames@;
        self.frames.truncate(keep);
        assert forall|i: int| 0 <= i < self.frames@.len() implies frame_ok(
            #[trigger] self.frames@[i],
            i,
            self.captured as nat,
        ) by {
            assert(frame_ok(before[i], i, self.captured as nat));
        }
        assert(frames_view(self.frames@) =~= frames_view(before).subrange(0, keep as int));
    }

    /// Puts `slot` in slot `k` of frame `frame`.
    fn store(&mut self, frame: usize, k: usize, slot: Option<Value>)
        requires
            old(self).wf(),
            frame < old(self).frames@.len(),
            k < old(self).frames@[frame as int].values@.len(),
            slot_ok(slot, old(self).captured as nat),
        ensures
            final(self).wf(),
            final(self).frames@.len() == old(self).frames@.len(),
            forall|j: int| 0 <= j < old(self).frames@.len() && j != frame ==> #[trigger] final(self).frames@[j] == old(self).frames@[j],
            final(self).frames@[frame as int].names == old(self).frames@[frame as int].names,
            final(self).frames@[frame as int].outer == old(self).frames@[frame as int].outer,
            final(self).frames@[frame as int].values@ == old(self).frames@[frame as int].values@.update(k as int, slot),
            final(self).captured == old(self).captured,
    {
        let ghost before = self.frames@;
        self.frames[frame].values.set(k, slot);
        assert forall|i: int| 0 <= i < self.frames@.len() implies frame_ok(
            #[trigger] self.frames@[i],
            i,
            self.captured as nat,
        ) by {
            assert(frame_ok(before[i], i, self.captured as nat));
            if i == frame {
                assert forall|x: int| 0 <= x < self.frames@[i].values@.len() implies slot_ok(
                    #[trigger] self.frames@[i].values@[x],
                    self.captured as nat,
                ) by {
                    if x != k {
                        assert(slot_ok(before[i].values@[x], self.captured as nat));
                    }
                }
            }
        }
    }

    /// Binds a name to a value in frame `frame` itself: a new binding, or a
    /// new value for one the frame already has. Enclosing frames are untouched.
    pub fn set(&mut self, frame: usize, name: &String, value: Value)
        requires
            old(self).wf(),
            frame < old(self).frames@.len(),
            value_ok(value, old(self).captured as nat),
        ensures
            final(self).wf(),
            final(self).frames@.len() == old(self).frames@.len(),
            forall|j: int| 0 <= j < old(self).frames@.len() && j != frame ==> #[trigger] final(self).frames@[j] == old(self).frames@[j],
            final(self).frames@[frame as int].outer == old(self).frames@[frame as int].outer,
            final(self).captured == old(self).captured,
            forall|n: Seq<char>| #[trigger] local(final(self).frames@[frame as int], n) == if n == name@ {
                Some(value)
            } else {
                local(old(self).frames@[frame as int], n)
            },
            frames_view(final(self).frames@) == setv(frames_view(old(self).frames@), frame as int, name@, value@),
    {
        let ghost before = self.frames@;
        let ghost f0 = self.frames@[frame as int];
        assert(frame_ok(f0, frame as int, self.captured as nat));
        proof {
            lemma_find_view(f0.names@, name@);
            assert(frames_view(before)[frame as int] == frame_view(f0));
        }
        match slot_of(&self.frames[frame], name) {
            Some(k) => {
                self.store(frame, k, Some(value));
                let ghost nf = self.frames@[frame as int];
                assert(nf.names@ == f0.names@);
                assert(nf.values@ == f0.values@.update(k as int, Some(value)));
                assert(k as int == find(f0.names@, name@));
                assert forall|n: Seq<char>| #[trigger] local(self.frames@[frame as int], n) == if n == name@ {
                    Some(value)
                } else {
                    local(f0, n)
                } by {
                    lemma_find_bounds(f0.names@, n);
                    lemma_find_bounds(f0.names@, name@);
                }
                proof {
                    lemma_find_bounds(f0.names@, name@);
                    assert(frame_view(nf) =~= setv(frames_view(before), frame as int, name@, value@)[frame as int]) by {
                        assert(slots_view(nf.values@) =~= slots_view(f0.values@).update(k as int, Some(value@)));
                    }
                    assert(frames_view(self.frames@) =~= setv(frames_view(before), frame as int, name@, value@));
                }
            },
            None => {
                let ghost names0 = f0.names@;
                let copy = name.clone();
                let fr = &mut self.frames[frame];
                fr.names.push(copy);
                fr.values.push(Some(value));
                assert forall|n: Seq<char>| #[trigger] local(self.frames@[frame as int], n) == if n == name@ {
                    Some(value)
                } else {
                    local(f0, n)
                } by {
                    lemma_find_push(names0, copy, n);
                    lemma_find_bounds(names0, n);
                }
                proof {
                    let nf = self.frames@[frame as int];
                    assert(frame_view(nf) =~= setv(frames_view(before), frame as int, name@, value@)[frame as int]) by {
                        assert(strings_view(nf.names@) =~= strings_view(f0.names@).push(name@));
                        assert(slots_view(nf.values@) =~= slots_view(f0.values@).push(Some(value@)));
                    }
                    assert(frames_view(self.frames@) =~= setv(frames_view(before), frame as int, name@, value@));
                }
                assert forall|i: int| 0 <= i < self.frames@.len() implies frame_ok(
                    #[trigger] self.frames@[i],
                    i,
                    self.captured as nat,
                ) by {
                    assert(frame_ok(before[i], i, before.len()));
                    if i == frame {
                        assert forall|x: int| 0 <= x < self.frames@[i].values@.len() implies slot_ok(
                            #[trigger] self.frames@[i].values@[x],
                            self.captured as nat,
                        ) by {
                            if x < f0.values@.len() {
                                assert(slot_ok(f0.values@[x], self.captured as nat));
                            }
                        }
                    }
                }
            },
        }
    }

    /// Removes the binding of a name from the first frame, searching outward
    /// from `frame`, that binds it; fails if none does.
    pub fn remove(&mut self, frame: usize, name: &Token) -> (r: Result<(), RuntimeError>)
        requires
            old(self).wf(),
            frame < old(self).frames@.len(),
        ensures
            final(self).wf(),
            final(self).frames@.len() == old(self).frames@.len(),
            final(self).captured == old(self).captured,
            match binder(old(self).frames@, frame as int, name.lexeme@) {
                None => r == Err::<(), RuntimeError>(undefined(*name)) && final(self).frames@ == old(self).frames@,
                Some(j) => {
                    &&& r is Ok
                    &&& forall|i: int| 0 <= i < old(self).frames@.len() && i != j ==> #[trigger] final(self).frames@[i] == old(self).frames@[i]
                    &&& final(self).frames@[j].outer == old(self).frames@[j].outer
                    &&& forall|n: Seq<char>| #[trigger] local(final(self).frames@[j], n) == if n == name.lexeme@ {
                        None
                    } else {
                        local(old(self).frames@[j], n)
                    }
                },
            },
            binder(old(self).frames@, frame as int, name.lexeme@) == binderv(
                frames_view(old(self).frames@),
                frame as int,
                name.lexeme@,
            ),
            binder(old(self).frames@, frame as int, name.lexeme@) matches Some(j) ==> frames_view(
                final(self).frames@,
            ) == removev(frames_view(old(self).frames@), j, name.lexeme@),
    {
        proof {
            lemma_lookup_view(self.frames@, frame as int, name.lexeme@);
        }
        let mut i = frame;
        loop
            invariant
                self.wf(),
                self.frames@ == old(self).frames@,
                self.captured == old(self).captured,
                i < self.frames@.len(),
                binder(self.frames@, i as int, name.lexeme@) == binder(self.frames@, frame as int, name.lexeme@),
                binder(old(self).frames@, frame as int, name.lexeme@) == binderv(
                    frames_view(old(self).frames@),
                    frame as int,
                    name.lexeme@,
                ),
            decreases i,
        {
            let ghost f0 = self.frames@[i as int];
            assert(frame_ok(f0, i as int, self.captured as nat));
            proof {
                lemma_find_bounds(f0.names@, name.lexeme@);
            }
            match slot_of(&self.frames[i], &name.lexeme) {
                Some(k) => if self.frames[i].values[k].is_some() {
                    self.store(i, k, None);
                    assert forall|n: Seq<char>| #[trigger] local(self.frames@[i as int], n) == if n == name.lexeme@ {
                        None
                    } else {
                        local(f0, n)
                    } by {
                        lemma_find_bounds(f0.names@, n);
                    }
                    proof {
                        lemma_find_view(f0.names@, name.lexeme@);
                        let before = old(self).frames@;
                        let nf = self.frames@[i as int];
                        assert(frames_view(before)[i as int] == frame_view(f0));
                        assert(frame_view(nf) =~= removev(frames_view(before), i as int, name.lexeme@)[i as int]) by {
                            assert(slots_view(nf.values@) =~= slots_view(f0.values@).update(k as int, None));
                        }
                        assert(frames_view(self.frames@) =~= removev(frames_view(before), i as int, name.lexeme@));
                    }
                    return Ok(());
                },
                None => {},
            }
            match self.frames[i].outer {
                Some(o) => {
                    i = o;
                },
                None => {
                    return Err(RuntimeError::UndefinedVariable { name: name.lexeme.clone(), line: name.line });
                },
            }
        }
    }
}

/// The slot of `name` in a frame, if it has one.
fn slot_of(f: &Frame, name: &String) -> (r: Option<usize>)
    ensures
        r is None <==> find(f.names@, name@) < 0,
        r matches Some(k) ==> k as int == find(f.names@, name@) && k < f.names@.len(),
{
    proof {
        lemma_find_bounds(f.names@, name@);
    }
    let mut k: usize = 0;
    assert(f.names@.subrange(0, 0) =~= Seq::<String>::empty());
    while k < f.names.len()
        invariant
            k <= f.names@.len(),
            find(f.names@.subrange(0, k as int), name@) == -1,
        decreases f.names@.len() - k,
    {
        proof {
            lemma_find_push(f.names@.subrange(0, k as int), f.names@[k as int], name@);
            assert(f.names@.subrange(0, k as int).push(f.names@[k as int]) =~= f.names@.subrange(0, k + 1));
        }
        if f.names[k] == *name {
            proof {
                lemma_find_prefix(f.names@, (k + 1) as nat, name@);
            }
            return Some(k);
        }
        k += 1;
    }
    assert(f.names@.subrange(0, k as int) =~= f.names@);
    None
}

/// `find` over a prefix that already holds the name gives the same slot.
proof fn lemma_find_prefix(names: Seq<String>, k: nat, name: Seq<char>)
    requires
        k <= names.len(),
        find(names.subrange(0, k as int), name) >= 0,
    ensures
        find(names, name) == find(names.subrange(0, k as int), name),
    decreases names.len() - k,
{
    if k < names.len() {
        lemma_find_push(names.subrange(0, k as int), names[k as int], name);
        assert(names.subrange(0, k as int).push(names[k as int]) =~= names.subrange(0, (k + 1) as int));
        lemma_find_prefix(names, k + 1, name);
    } else {
        assert(names.subrange(0, k as int) =~= names);
    }
}

} // verus!
