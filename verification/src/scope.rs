//! The lexical scope resolver: the compiler frontend that tracks which
//! identifiers are lazily bound definitions ("binds") and which are
//! positional call arguments ("args"), across nested lexical frames.
//!
//! Frames live in an arena and point to their parent by index, so the
//! lookup chain is expressed without shared ownership.  The bind counter
//! is global to a [`Scopes`] value, so bind ids never collide across
//! sibling or nested scopes.
//!
//! Resolving a name walks outward through the chain.  The reported depth
//! is the number of parent hops the walk traversed: zero for a name found
//! in the starting frame, one per frame left behind after that.  Bind
//! resolutions are depth-independent (binds are globally addressable
//! labels), but the depth is reported uniformly for both kinds.

use vstd::prelude::*;
use crate::cmd::EMIT_LIMIT;

verus! {

/// What a name resolves to: a lazily bound definition with a globally
/// unique id, or a positional call argument.
#[derive(Clone, Copy, PartialEq, Eq, Structural, Debug)]
pub enum Identifier {
    Bind(usize),
    Arg(usize),
}

/// The mathematical image of an [`Identifier`], over unbounded integers.
pub enum SIdent {
    Bind(int),
    Arg(int),
}

impl View for Identifier {
    type V = SIdent;

    open spec fn view(&self) -> SIdent {
        match self {
            Identifier::Bind(id) => SIdent::Bind(*id as int),
            Identifier::Arg(i) => SIdent::Arg(*i as int),
        }
    }
}

/// One lexical frame: its local name mapping and its parent frame.
pub struct ScopeFrame {
    pub names: Vec<(String, Identifier)>,
    pub parent: Option<usize>,
}

/// The mathematical image of one frame.
#[verifier::ext_equal]
pub struct SFrame {
    pub names: Seq<(Seq<char>, SIdent)>,
    pub parent: Option<int>,
}

impl View for ScopeFrame {
    type V = SFrame;

    open spec fn view(&self) -> SFrame {
        SFrame {
            names: self.names@.map_values(|p: (String, Identifier)| (p.0@, p.1@)),
            parent: match self.parent {
                Option::Some(p) => Option::Some(p as int),
                Option::None => Option::None,
            },
        }
    }
}

/// The whole resolver state: the frame arena and the shared bind counter.
pub struct Scopes {
    frames: Vec<ScopeFrame>,
    bind_cnt: usize,
}

/// The mathematical image of the resolver state.
#[verifier::ext_equal]
pub struct SScopes {
    pub frames: Seq<SFrame>,
    pub cnt: int,
}

impl View for Scopes {
    type V = SScopes;

    closed spec fn view(&self) -> SScopes {
        SScopes {
            frames: self.frames@.map_values(|f: ScopeFrame| f@),
            cnt: self.bind_cnt as int,
        }
    }
}

/// Search one frame's local mapping; the latest declaration of a name
/// shadows earlier ones.
pub open spec fn frame_lookup(names: Seq<(Seq<char>, SIdent)>, name: Seq<char>) -> Option<SIdent>
    decreases names.len(),
{
    if names.len() == 0 {
        Option::None
    } else if names.last().0 == name {
        Option::Some(names.last().1)
    } else {
        frame_lookup(names.drop_last(), name)
    }
}

/// A frame's parent, if any, must come earlier in the arena.
pub open spec fn frame_ok(f: SFrame, i: int) -> bool {
    match f.parent {
        Option::Some(p) => 0 <= p < i,
        Option::None => true,
    }
}

/// The arena is acyclic: every parent index points strictly backwards.
pub open spec fn frames_wf(frames: Seq<SFrame>) -> bool {
    forall|i: int| 0 <= i < frames.len() ==> frame_ok(#[trigger] frames[i], i)
}

/// Resolve a name from the given scope outward.  The depth is the number
/// of parent hops traversed: zero when the name is found locally, and one
/// more for each frame the walk leaves behind.
pub open spec fn resolve_spec(frames: Seq<SFrame>, scope: int, name: Seq<char>) -> Option<
    (SIdent, int),
>
    decreases scope,
{
    if !(0 <= scope < frames.len()) {
        Option::None
    } else {
        match frame_lookup(frames[scope].names, name) {
            Option::Some(id) => Option::Some((id, 0)),
            Option::None => match frames[scope].parent {
                Option::None => Option::None,
                Option::Some(p) => if 0 <= p < scope {
                    match resolve_spec(frames, p, name) {
                        Option::Some((id, d)) => Option::Some((id, d + 1)),
                        Option::None => Option::None,
                    }
                } else {
                    Option::None
                },
            },
        }
    }
}

/// A fresh resolver: one root frame, no names, counter at zero.
pub open spec fn scopes_new_m() -> SScopes {
    SScopes {
        frames: seq![SFrame { names: Seq::empty(), parent: Option::None }],
        cnt: 0,
    }
}

/// Forking appends an empty child frame that shadows nothing locally.
pub open spec fn fork_m(sc: SScopes, parent: int) -> SScopes {
    SScopes {
        frames: sc.frames.push(SFrame { names: Seq::empty(), parent: Option::Some(parent) }),
        cnt: sc.cnt,
    }
}

/// Declaring a bind registers the name in the newest frame under the next
/// globally unique id and advances the shared counter.
pub open spec fn declare_bind_m(sc: SScopes, name: Seq<char>) -> SScopes {
    let last = sc.frames.len() - 1;
    SScopes {
        frames: sc.frames.update(
            last,
            SFrame {
                names: sc.frames[last].names.push((name, SIdent::Bind(sc.cnt))),
                ..sc.frames[last]
            },
        ),
        cnt: sc.cnt + 1,
    }
}

/// Declaring an argument registers the name in the newest frame at its
/// positional index; the bind counter is untouched.
pub open spec fn declare_arg_m(sc: SScopes, name: Seq<char>, index: int) -> SScopes {
    let last = sc.frames.len() - 1;
    SScopes {
        frames: sc.frames.update(
            last,
            SFrame {
                names: sc.frames[last].names.push((name, SIdent::Arg(index))),
                ..sc.frames[last]
            },
        ),
        cnt: sc.cnt,
    }
}

/// Appending a fresh frame at the end of the arena leaves every
/// resolution from an existing frame unchanged: the walk only ever reads
/// frames at or before its starting index.
pub proof fn lemma_resolve_unchanged_by_push(
    frames: Seq<SFrame>,
    f: SFrame,
    scope: int,
    name: Seq<char>,
)
    requires
        scope < frames.len(),
    ensures
        resolve_spec(frames.push(f), scope, name) == resolve_spec(frames, scope, name),
    decreases scope,
{
    if 0 <= scope < frames.len() {
        assert(frames.push(f)[scope] == frames[scope]);
        match frames[scope].parent {
            Option::Some(p) => {
                if 0 <= p < scope {
                    lemma_resolve_unchanged_by_push(frames, f, p, name);
                }
            },
            Option::None => {},
        }
    }
}

/// Law: forking keeps the parent scope visible.  A name that resolves
/// from the parent frame resolves identically from the fresh child frame,
/// one hop deeper; a name unbound at the parent stays unbound at the
/// child.  The child's own mapping starts empty, so nothing is shadowed
/// at depth zero until the child declares it.
pub proof fn lemma_fork_parent_visible(sc: SScopes, parent: int, name: Seq<char>)
    requires
        0 <= parent < sc.frames.len(),
    ensures
        ({
            let child = sc.frames.len() as int;
            resolve_spec(fork_m(sc, parent).frames, child, name) == match resolve_spec(
                sc.frames,
                parent,
                name,
            ) {
                Option::Some((id, d)) => Option::Some((id, d + 1)),
                Option::None => Option::None,
            }
        }),
{
    let child = sc.frames.len() as int;
    let cf = fork_m(sc, parent).frames;
    assert(cf[child].names.len() == 0);
    assert(frame_lookup(cf[child].names, name) is None);
    lemma_resolve_unchanged_by_push(sc.frames, cf[child], parent, name);
}

impl Scopes {
    /// A resolver holding only the root scope.
    pub fn new() -> (s: Scopes)
        ensures
            s@ == scopes_new_m(),
            frames_wf(s@.frames),
    {
        let mut frames: Vec<ScopeFrame> = Vec::new();
        frames.push(ScopeFrame { names: Vec::new(), parent: Option::None });
        let s = Scopes { frames, bind_cnt: 0 };
        proof {
            assert(s@.frames =~~= scopes_new_m().frames);
            assert(s@ =~= scopes_new_m());
        }
        s
    }

    /// How many frames the arena holds.
    pub fn frame_count(&self) -> (n: usize)
        ensures
            n as int == self@.frames.len(),
    {
        self.frames.len()
    }

    /// The next bind id that will be handed out.
    pub fn bind_count(&self) -> (n: usize)
        ensures
            n as int == self@.cnt,
    {
        self.bind_cnt
    }

    /// Create a child frame below `parent` with an empty local mapping, so
    /// that names declared in it shadow outer names at depth zero.
    pub fn fork(&mut self, parent: usize) -> (child: usize)
        requires
            (parent as int) < old(self)@.frames.len(),
            frames_wf(old(self)@.frames),
        ensures
            final(self)@ == fork_m(old(self)@, parent as int),
            child as int == old(self)@.frames.len(),
            frames_wf(final(self)@.frames),
    {
        let child = self.frames.len();
        self.frames.push(ScopeFrame { names: Vec::new(), parent: Option::Some(parent) });
        proof {
            assert(self@.frames =~~= fork_m(old(self)@, parent as int).frames);
            assert(self@ =~= fork_m(old(self)@, parent as int));
            assert forall|i: int| 0 <= i < self@.frames.len() implies frame_ok(
                #[trigger] self@.frames[i],
                i,
            ) by {
                if i < old(self)@.frames.len() {
                    assert(frame_ok(old(self)@.frames[i], i));
                }
            }
        }
        child
    }

    /// Register a lazily bound definition in the newest frame and hand out
    /// its globally unique id.
    pub fn declare_bind(&mut self, name: &String) -> (id: usize)
        requires
            old(self)@.frames.len() > 0,
            old(self)@.cnt < EMIT_LIMIT,
            frames_wf(old(self)@.frames),
        ensures
            final(self)@ == declare_bind_m(old(self)@, name@),
            id as int == old(self)@.cnt,
            frames_wf(final(self)@.frames),
    {
        let id = self.bind_cnt;
        let mut fr = self.frames.pop().unwrap();
        fr.names.push((name.clone(), Identifier::Bind(id)));
        self.frames.push(fr);
        self.bind_cnt = self.bind_cnt + 1;
        proof {
            let last = old(self)@.frames.len() - 1;
            assert(self@.frames =~~= declare_bind_m(old(self)@, name@).frames);
            assert(self@ =~= declare_bind_m(old(self)@, name@));
            assert forall|i: int| 0 <= i < self@.frames.len() implies frame_ok(
                #[trigger] self@.frames[i],
                i,
            ) by {
                assert(frame_ok(old(self)@.frames[i], i));
            }
        }
        id
    }

    /// Register a call argument in the newest frame at its positional index.
    pub fn declare_arg(&mut self, name: &String, index: usize)
        requires
            old(self)@.frames.len() > 0,
            frames_wf(old(self)@.frames),
        ensures
            final(self)@ == declare_arg_m(old(self)@, name@, index as int),
            frames_wf(final(self)@.frames),
    {
        let mut fr = self.frames.pop().unwrap();
        fr.names.push((name.clone(), Identifier::Arg(index)));
        self.frames.push(fr);
        proof {
            assert(self@.frames =~~= declare_arg_m(old(self)@, name@, index as int).frames);
            assert(self@ =~= declare_arg_m(old(self)@, name@, index as int));
            assert forall|i: int| 0 <= i < self@.frames.len() implies frame_ok(
                #[trigger] self@.frames[i],
                i,
            ) by {
                assert(frame_ok(old(self)@.frames[i], i));
            }
        }
    }

    /// Whether a name is already declared locally in the newest frame,
    /// without walking the parent chain.
    #[verifier::loop_isolation(false)]
    pub fn declared_in_last(&self, name: &String) -> (r: bool)
        requires
            self@.frames.len() > 0,
        ensures
            r == (frame_lookup(self@.frames.last().names, name@) is Some),
    {
        let last = self.frames.len() - 1;
        let fr = &self.frames[last];
        proof {
            assert(self@.frames[last as int] == fr@);
            assert(self@.frames.last() == fr@);
        }
        let ghost names = fr@.names;
        let mut j = fr.names.len();
        proof {
            assert(names.take(fr.names.len() as int) =~= names);
        }
        while j > 0
            invariant
                j <= fr.names.len(),
                names == fr@.names,
                frame_lookup(names.take(j as int), name@) == frame_lookup(names, name@),
            decreases j,
        {
            j = j - 1;
            if fr.names[j].0 == *name {
                proof {
                    let pre = names.take(j as int + 1);
                    assert(pre.last() == names[j as int]);
                    assert(frame_lookup(pre, name@) == Option::Some(names[j as int].1));
                }
                return true;
            }
            proof {
                let pre = names.take(j as int + 1);
                assert(pre.last() == names[j as int]);
                assert(pre.last().0 != name@);
                assert(pre.drop_last() =~= names.take(j as int));
            }
        }
        proof {
            assert(names.take(0) =~= Seq::<(Seq<char>, SIdent)>::empty());
            assert(frame_lookup(names, name@) is None);
        }
        false
    }

    /// Resolve a name from the given scope outward, reporting what it names
    /// and the run-time frame depth.  `None` means the name is unbound.
    #[verifier::loop_isolation(false)]
    pub fn resolve(&self, scope: usize, name: &String) -> (r: Option<(Identifier, usize)>)
        requires
            frames_wf(self@.frames),
            (scope as int) < self@.frames.len(),
        ensures
            match r {
                Option::Some((id, d)) => {
                    &&& resolve_spec(self@.frames, scope as int, name@) == Option::Some(
                        (id@, d as int),
                    )
                    &&& d <= scope
                },
                Option::None => resolve_spec(self@.frames, scope as int, name@) is None,
            },
        decreases scope,
    {
        let fr = &self.frames[scope];
        proof {
            assert(self@.frames[scope as int] == self.frames@.map_values(
                |f: ScopeFrame| f@,
            )[scope as int]);
            assert(self@.frames[scope as int] == fr@);
        }
        let ghost names = fr@.names;
        let mut j = fr.names.len();
        proof {
            assert(names.take(fr.names.len() as int) =~= names);
        }
        while j > 0
            invariant
                j <= fr.names.len(),
                names == fr@.names,
                frame_lookup(names.take(j as int), name@) == frame_lookup(names, name@),
            decreases j,
        {
            j = j - 1;
            if fr.names[j].0 == *name {
                proof {
                    let pre = names.take(j as int + 1);
                    assert(pre.last() == names[j as int]);
                    assert(pre.last().0 == name@);
                    assert(frame_lookup(pre, name@) == Option::Some(names[j as int].1));
                    assert(frame_lookup(names, name@) == Option::Some(names[j as int].1));
                    assert(self@.frames[scope as int] == fr@);
                    assert(resolve_spec(self@.frames, scope as int, name@) == Option::Some(
                        (names[j as int].1, 0int),
                    ));
                }
                return Option::Some((fr.names[j].1, 0));
            }
            proof {
                let pre = names.take(j as int + 1);
                assert(pre.last() == names[j as int]);
                assert(pre.last().0 != name@);
                assert(pre.drop_last() =~= names.take(j as int));
            }
        }
        proof {
            assert(names.take(0) =~= Seq::<(Seq<char>, SIdent)>::empty());
            assert(frame_lookup(names, name@) is None);
        }
        match fr.parent {
            Option::None => Option::None,
            Option::Some(p) => {
                proof {
                    assert(frame_ok(self@.frames[scope as int], scope as int));
                }
                match self.resolve(p, name) {
                    Option::Some((id, d)) => Option::Some((id, d + 1)),
                    Option::None => Option::None,
                }
            },
        }
    }
}

} // verus!
