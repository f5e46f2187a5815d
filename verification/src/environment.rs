use vstd::prelude::*;

use crate::object::{obj_wf, Object, ValueV};

verus! {

/// One name bound to one value.
#[derive(Debug)]
pub struct Binding {
    pub name: String,
    pub value: Object,
}

/// One scope: its bindings, newest last, and the handle of the
/// enclosing scope, if any.
#[derive(Debug)]
pub struct Frame {
    pub entries: Vec<Binding>,
    pub outer: Option<usize>,
}

/// All environments live in one arena and are addressed by handle; a
/// handle stays valid for the life of the arena, so closures may keep
/// one freely and scopes may share structure without reference cycles.
///
/// Frames are only ever appended, and a frame's `outer` handle always
/// points at an earlier frame, so lookup chains terminate.
#[derive(Debug)]
pub struct Environment {
    frames: Vec<Frame>,
}

/// The mathematical image of a frame.
#[verifier::ext_equal]
pub struct FrameV {
    pub entries: Seq<(Seq<char>, ValueV)>,
    pub outer: Option<int>,
}

/// Image of a binding.
pub open spec fn binding_view(b: Binding) -> (Seq<char>, ValueV) {
    (b.name@, b.value@)
}

/// Image of a binding list.
pub open spec fn bindings_view(bs: Seq<Binding>) -> Seq<(Seq<char>, ValueV)> {
    bs.map_values(|b: Binding| binding_view(b))
}

/// Image of a frame.
pub open spec fn frame_view(f: Frame) -> FrameV {
    FrameV {
        entries: bindings_view(f.entries@),
        outer: match f.outer {
            Some(o) => Some(o as int),
            None => None,
        },
    }
}

impl View for Environment {
    type V = Seq<FrameV>;

    closed spec fn view(&self) -> Seq<FrameV> {
        self.frames@.map_values(|f: Frame| frame_view(f))
    }
}

/// The arena holding exactly one empty root scope.
pub open spec fn initial_env() -> Seq<FrameV> {
    seq![FrameV { entries: Seq::empty(), outer: None }]
}

/// The newest binding of `name` in one frame's entries.
pub open spec fn frame_lookup(entries: Seq<(Seq<char>, ValueV)>, name: Seq<char>) -> Option<
    ValueV,
>
    decreases entries.len(),
{
    if entries.len() == 0 {
        None
    } else if entries.last().0 == name {
        Some(entries.last().1)
    } else {
        frame_lookup(entries.drop_last(), name)
    }
}

/// Name resolution: the local frame first, then the enclosing chain.
pub open spec fn env_lookup(st: Seq<FrameV>, env: int, name: Seq<char>) -> Option<ValueV>
    decreases env,
{
    if 0 <= env < st.len() {
        match frame_lookup(st[env].entries, name) {
            Some(v) => Some(v),
            None => match st[env].outer {
                Some(o) => if 0 <= o < env {
                    env_lookup(st, o, name)
                } else {
                    None
                },
                None => None,
            },
        }
    } else {
        None
    }
}

/// The arena after binding `name` to `v` in frame `env`.
pub open spec fn env_set(st: Seq<FrameV>, env: int, name: Seq<char>, v: ValueV) -> Seq<FrameV> {
    st.update(env, FrameV { entries: st[env].entries.push((name, v)), outer: st[env].outer })
}

/// A frame at position `i` is well formed in an arena of `n` frames:
/// its outer handle points strictly earlier, and every stored value's
/// handles point into the arena.
pub open spec fn frame_wf(f: FrameV, i: int, n: int) -> bool {
    &&& match f.outer {
        Some(o) => 0 <= o < i,
        None => true,
    }
    &&& forall|k: int| 0 <= k < f.entries.len() ==> obj_wf(#[trigger] f.entries[k].1, n)
}

/// Every frame of the arena is well formed.
pub open spec fn env_wf(st: Seq<FrameV>) -> bool {
    forall|i: int| 0 <= i < st.len() ==> frame_wf(#[trigger] st[i], i, st.len() as int)
}

/// Image of an optional value.
pub open spec fn opt_value_view(r: Option<Object>) -> Option<ValueV> {
    match r {
        Some(o) => Some(o@),
        None => None,
    }
}

impl Environment {
    /// A fresh arena holding one empty root scope, handle zero.
    pub fn new() -> (r: Environment)
        ensures
            r@ == initial_env(),
            env_wf(r@),
    {
        let mut frames: Vec<Frame> = Vec::new();
        frames.push(Frame { entries: Vec::new(), outer: None });
        let r = Environment { frames };
        proof {
            assert(bindings_view(Seq::empty()) =~= Seq::<(Seq<char>, ValueV)>::empty());
            assert(r@[0] == frame_view(r.frames@[0]));
            assert(r@[0] =~~= initial_env()[0]);
            assert(r@ =~~= initial_env());
        }
        r
    }

    /// The number of scopes in the arena.
    pub fn len(&self) -> (r: usize)
        ensures
            r == self@.len(),
    {
        self.frames.len()
    }

    /// A new scope enclosed in `outer`, seeded with `bindings`; its
    /// handle is the arena's previous length.
    pub fn new_enclosed(&mut self, outer: usize, bindings: Vec<Binding>) -> (r: usize)
        requires
            outer < old(self)@.len(),
        ensures
            r == old(self)@.len(),
            final(self)@ == old(self)@.push(
                FrameV { entries: bindings_view(bindings@), outer: Some(outer as int) },
            ),
    {
        let id = self.frames.len();
        self.frames.push(Frame { entries: bindings, outer: Some(outer) });
        proof {
            assert(final(self)@ =~= old(self)@.push(
                FrameV { entries: bindings_view(bindings@), outer: Some(outer as int) },
            ));
        }
        id
    }

    /// The value bound to `name` in scope `env`, found in the nearest
    /// frame of its chain; `None` when the whole chain lacks the name.
    pub fn get(&self, env: usize, name: &str) -> (r: Option<Object>)
        requires
            env < self@.len(),
            env_wf(self@),
        ensures
            opt_value_view(r) == env_lookup(self@, env as int, name@),
    {
        let name_string: String = name.to_owned();
        let mut cur: usize = env;
        loop
            invariant
                cur < self@.len(),
                env < self@.len(),
                env_wf(self@),
                name_string@ == name@,
                env_lookup(self@, env as int, name@) == env_lookup(self@, cur as int, name@),
            decreases cur,
        {
            let frame = &self.frames[cur];
            proof {
                assert(self@[cur as int] == frame_view(self.frames@[cur as int]));
                assert(bindings_view(frame.entries@).take(frame.entries@.len() as int)
                    =~= bindings_view(frame.entries@));
            }
            let mut k = frame.entries.len();
            while k > 0
                invariant
                    cur < self@.len(),
                    env < self@.len(),
                    env_lookup(self@, env as int, name@) == env_lookup(self@, cur as int, name@),
                    k <= frame.entries.len(),
                    frame == &self.frames@[cur as int],
                    self@[cur as int] == frame_view(self.frames@[cur as int]),
                    name_string@ == name@,
                    frame_lookup(self@[cur as int].entries, name@) == frame_lookup(
                        bindings_view(frame.entries@).take(k as int),
                        name@,
                    ),
                decreases k,
            {
                k = k - 1;
                let b = &frame.entries[k];
                proof {
                    assert(bindings_view(frame.entries@).take(k + 1).last() == binding_view(
                        frame.entries@[k as int],
                    ));
                    assert(bindings_view(frame.entries@).take(k + 1).drop_last() =~= bindings_view(
                        frame.entries@,
                    ).take(k as int));
                }
                if b.name == name_string {
                    let v = b.value.duplicate();
                    proof {
                        assert(bindings_view(frame.entries@).take(k + 1).last().0 == name@);
                        assert(frame_lookup(
                            bindings_view(frame.entries@).take(k + 1),
                            name@,
                        ) == Some(binding_view(frame.entries@[k as int]).1));
                        assert(frame_lookup(self@[cur as int].entries, name@) == Some(b.value@));
                        assert(env_lookup(self@, cur as int, name@) == Some(b.value@));
                    }
                    return Some(v);
                }
            }
            proof {
                assert(bindings_view(frame.entries@).take(0) =~= Seq::<(
                    Seq<char>,
                    ValueV,
                )>::empty());
                assert(frame_lookup(self@[cur as int].entries, name@) is None);
            }
            match frame.outer {
                Some(o) => {
                    proof {
                        assert(frame_wf(self@[cur as int], cur as int, self@.len() as int));
                        assert(self@[cur as int].outer == Some(o as int));
                        assert(env_lookup(self@, cur as int, name@) == env_lookup(
                            self@,
                            o as int,
                            name@,
                        ));
                    }
                    cur = o;
                },
                None => {
                    return None;
                },
            }
        }
    }

    /// Binds `name` to `val` in scope `env`, shadowing any previous
    /// binding of the name there; enclosing scopes are unchanged.
    pub fn set(&mut self, env: usize, name: String, val: &Object)
        requires
            env < old(self)@.len(),
        ensures
            final(self)@ == env_set(old(self)@, env as int, name@, val@),
    {
        let ghost old_view = self@;
        let dup = val.duplicate();
        let frame = &mut self.frames[env];
        frame.entries.push(Binding { name, value: dup });
        proof {
            assert(bindings_view(final(frame).entries@) =~= old_view[env as int].entries.push(
                (name@, val@),
            ));
            assert(final(self)@ =~= env_set(old_view, env as int, name@, val@));
        }
    }
}

/// Binding a name and then resolving it in the same scope yields the
/// new value: `set` overwrites what the scope's own chain showed, so a
/// closure holding this scope's handle sees the update.
pub proof fn lemma_env_set_get_same(st: Seq<FrameV>, env: int, name: Seq<char>, v: ValueV)
    requires
        0 <= env < st.len(),
    ensures
        env_lookup(env_set(st, env, name, v), env, name) == Some(v),
{
    let st2 = env_set(st, env, name, v);
    assert(st2[env].entries.last() == (name, v));
    assert(frame_lookup(st2[env].entries, name) == Some(v));
}

/// When a scope's own frame lacks a name, resolution delegates to the
/// enclosing scope, unchanged.
pub proof fn lemma_env_lookup_delegates(st: Seq<FrameV>, env: int, o: int, name: Seq<char>)
    requires
        0 <= env < st.len(),
        frame_lookup(st[env].entries, name) is None,
        st[env].outer == Some(o),
        0 <= o < env,
    ensures
        env_lookup(st, env, name) == env_lookup(st, o, name),
{
}

/// Binding in a scope leaves resolution in every earlier scope
/// untouched: shadowing does not reach outward.
pub proof fn lemma_env_set_preserves_earlier(
    st: Seq<FrameV>,
    env: int,
    name: Seq<char>,
    v: ValueV,
    o: int,
    m: Seq<char>,
)
    requires
        env_wf(st),
        0 <= o < env < st.len(),
    ensures
        env_lookup(env_set(st, env, name, v), o, m) == env_lookup(st, o, m),
    decreases o,
{
    let st2 = env_set(st, env, name, v);
    assert(st2[o] == st[o]);
    match st[o].outer {
        Some(oo) => {
            assert(frame_wf(st[o], o, st.len() as int));
            if frame_lookup(st[o].entries, m) is None {
                lemma_env_set_preserves_earlier(st, env, name, v, oo, m);
            }
        },
        None => {},
    }
}

/// Binding a well-formed value keeps the arena well formed.
pub proof fn lemma_env_set_wf(st: Seq<FrameV>, env: int, name: Seq<char>, v: ValueV)
    requires
        env_wf(st),
        0 <= env < st.len(),
        obj_wf(v, st.len() as int),
    ensures
        env_wf(env_set(st, env, name, v)),
{
    let st2 = env_set(st, env, name, v);
    assert forall|i: int| 0 <= i < st2.len() implies frame_wf(
        #[trigger] st2[i],
        i,
        st2.len() as int,
    ) by {
        assert(frame_wf(st[i], i, st.len() as int));
        if i == env {
            let es = st2[i].entries;
            assert forall|k: int| 0 <= k < es.len() implies obj_wf(
                #[trigger] es[k].1,
                st2.len() as int,
            ) by {
                if k < es.len() - 1 {
                    assert(es[k] == st[i].entries[k]);
                }
            }
        }
    }
}

/// Every frame stays well formed when the arena grows by one frame
/// whose outer handle is valid and whose seeded values are well formed.
pub proof fn lemma_env_push_wf(st: Seq<FrameV>, f: FrameV)
    requires
        env_wf(st),
        match f.outer {
            Some(o) => 0 <= o < st.len(),
            None => true,
        },
        forall|k: int|
            0 <= k < f.entries.len() ==> obj_wf(#[trigger] f.entries[k].1, st.len() as int + 1),
    ensures
        env_wf(st.push(f)),
{
    let st2 = st.push(f);
    assert forall|i: int| 0 <= i < st2.len() implies frame_wf(
        #[trigger] st2[i],
        i,
        st2.len() as int,
    ) by {
        if i < st.len() {
            assert(st2[i] == st[i]);
            assert(frame_wf(st[i], i, st.len() as int));
            let es = st[i].entries;
            assert forall|k: int| 0 <= k < es.len() implies obj_wf(
                #[trigger] es[k].1,
                st2.len() as int,
            ) by {
                assert(obj_wf(es[k].1, st.len() as int));
                crate::object::lemma_obj_wf_grow(es[k].1, st.len() as int, st2.len() as int);
            }
        } else {
            assert(st2[i] == f);
        }
    }
}

/// A value resolved from a well-formed arena is itself well formed.
pub proof fn lemma_env_lookup_wf(st: Seq<FrameV>, env: int, name: Seq<char>)
    requires
        env_wf(st),
        env_lookup(st, env, name) is Some,
    ensures
        obj_wf(env_lookup(st, env, name).unwrap(), st.len() as int),
    decreases env,
{
    if 0 <= env < st.len() {
        assert(frame_wf(st[env], env, st.len() as int));
        match frame_lookup(st[env].entries, name) {
            Some(v) => {
                lemma_frame_lookup_wf(st[env].entries, name, st.len() as int);
            },
            None => match st[env].outer {
                Some(o) => {
                    if 0 <= o < env {
                        lemma_env_lookup_wf(st, o, name);
                    }
                },
                None => {},
            },
        }
    }
}

/// A value found among well-formed entries is well formed.
proof fn lemma_frame_lookup_wf(entries: Seq<(Seq<char>, ValueV)>, name: Seq<char>, n: int)
    requires
        forall|k: int| 0 <= k < entries.len() ==> obj_wf(#[trigger] entries[k].1, n),
        frame_lookup(entries, name) is Some,
    ensures
        obj_wf(frame_lookup(entries, name).unwrap(), n),
    decreases entries.len(),
{
    if entries.len() > 0 && entries.last().0 != name {
        lemma_frame_lookup_wf(entries.drop_last(), name, n);
    }
}

/// Resolution from an earlier scope ignores frames added later.
pub proof fn lemma_env_lookup_push(st: Seq<FrameV>, f: FrameV, env: int, name: Seq<char>)
    requires
        0 <= env < st.len(),
    ensures
        env_lookup(st.push(f), env, name) == env_lookup(st, env, name),
    decreases env,
{
    let st2 = st.push(f);
    assert(st2[env] == st[env]);
    if frame_lookup(st[env].entries, name) is None {
        match st[env].outer {
            Some(o) => {
                if 0 <= o < env {
                    lemma_env_lookup_push(st, f, o, name);
                }
            },
            None => {},
        }
    }
}

/// What a closure sees: a call frame enclosed in the scope the
/// closure captured resolves a name it does not bind itself in that
/// captured scope — so a binding made there after the capture, as a
/// later `let` of the same name, is what the closure's body observes.
pub proof fn lemma_closure_sees_captured_scope(
    st: Seq<FrameV>,
    env: int,
    name: Seq<char>,
    v: ValueV,
    entries: Seq<(Seq<char>, ValueV)>,
)
    requires
        0 <= env < st.len(),
        frame_lookup(entries, name) is None,
    ensures
        ({
            let st2 = env_set(st, env, name, v).push(FrameV { entries, outer: Some(env) });
            env_lookup(st2, st.len() as int, name) == Some(v)
        }),
{
    let st1 = env_set(st, env, name, v);
    let frame = FrameV { entries, outer: Some(env) };
    let st2 = st1.push(frame);
    assert(st2[st.len() as int] == frame);
    lemma_env_lookup_push(st1, frame, env, name);
    lemma_env_set_get_same(st, env, name, v);
}

} // verus!
