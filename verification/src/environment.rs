//! The environment: every scope frame of a running program.
//!
//! A frame maps names to values and may be enclosed by another frame. Frames
//! are shared (by the call stack, by closures, by bound methods) and
//! written through any of their holders, so they live here, in one store, and
//! are referred to by index. Frame 0 is the global frame. A frame is only ever
//! enclosed by one that was created before it.

use crate::value::LoxValue;
use vstd::hash_map::StringHashMap;
use vstd::prelude::*;
use vstd::string::StringExecFns;

verus! {

/// A frame, as the contracts see it.
pub struct FrameModel {
    pub values: Map<Seq<char>, LoxValue>,
    pub enclosing: Option<usize>,
}

pub struct Frame {
    pub values: StringHashMap<LoxValue>,
    pub enclosing: Option<usize>,
}

impl View for Frame {
    type V = FrameModel;

    open spec fn view(&self) -> FrameModel {
        FrameModel { values: self.values@, enclosing: self.enclosing }
    }
}

/// Every frame is enclosed, if at all, by an earlier one; the global frame exists.
pub open spec fn chained(frames: Seq<FrameModel>) -> bool {
    &&& frames.len() > 0
    &&& forall|i: int|
        0 <= i < frames.len() ==> match (#[trigger] frames[i]).enclosing {
            Some(parent) => parent < i,
            None => true,
        }
}

/// The frame reached from `frame` over exactly `distance` enclosing links;
/// `None` where the chain ends before that.
pub open spec fn ancestor_spec(frames: Seq<FrameModel>, frame: usize, distance: nat) -> Option<
    usize,
>
    decreases distance,
{
    if distance == 0 {
        Some(frame)
    } else {
        match frames[frame as int].enclosing {
            Some(parent) => ancestor_spec(frames, parent, (distance - 1) as nat),
            None => None,
        }
    }
}

/// What `name` is bound to in the frame `distance` links out from `frame`.
pub open spec fn get_at_spec(
    frames: Seq<FrameModel>,
    frame: usize,
    name: Seq<char>,
    distance: nat,
) -> Option<LoxValue> {
    match ancestor_spec(frames, frame, distance) {
        Some(target) => if frames[target as int].values.contains_key(name) {
            Some(frames[target as int].values[name])
        } else {
            None
        },
        None => None,
    }
}

/// What `name` is bound to in the nearest frame, from `frame` outwards, that binds it.
pub open spec fn get_spec(frames: Seq<FrameModel>, frame: usize, name: Seq<char>) -> Option<
    LoxValue,
>
    decreases frame,
{
    if frames[frame as int].values.contains_key(name) {
        Some(frames[frame as int].values[name])
    } else {
        match frames[frame as int].enclosing {
            Some(parent) => if parent < frame {
                get_spec(frames, parent, name)
            } else {
                None
            },
            None => None,
        }
    }
}

/// The frames after `name` has been bound to `value` in `frame`.
pub open spec fn define_spec(
    frames: Seq<FrameModel>,
    frame: usize,
    name: Seq<char>,
    value: LoxValue,
) -> Seq<FrameModel> {
    frames.update(
        frame as int,
        FrameModel {
            values: frames[frame as int].values.insert(name, value),
            enclosing: frames[frame as int].enclosing,
        },
    )
}

/// Whether an assignment to `name`, `distance` links out from `frame`, finds a binding to overwrite.
pub open spec fn assignable(
    frames: Seq<FrameModel>,
    frame: usize,
    name: Seq<char>,
    distance: nat,
) -> bool {
    get_at_spec(frames, frame, name, distance) is Some
}

/// The frames after the assignment: the binding overwritten where there is
/// one, nothing changed where there is none.
pub open spec fn assign_at_spec(
    frames: Seq<FrameModel>,
    frame: usize,
    name: Seq<char>,
    value: LoxValue,
    distance: nat,
) -> Seq<FrameModel> {
    if assignable(frames, frame, name, distance) {
        define_spec(frames, ancestor_spec(frames, frame, distance)->0, name, value)
    } else {
        frames
    }
}

/// The frames with one more, empty and enclosed by `enclosing`.
pub open spec fn enclose_spec(frames: Seq<FrameModel>, enclosing: usize) -> Seq<FrameModel> {
    frames.push(FrameModel { values: Map::empty(), enclosing: Some(enclosing) })
}

/// Walking outwards stays inside the store.
pub proof fn lemma_ancestor_in_range(frames: Seq<FrameModel>, frame: usize, distance: nat)
    requires
        chained(frames),
        frame < frames.len(),
    ensures
        match ancestor_spec(frames, frame, distance) {
            Some(target) => target <= frame,
            None => true,
        },
    decreases distance,
{
    if distance > 0 {
        match frames[frame as int].enclosing {
            Some(parent) => {
                lemma_ancestor_in_range(frames, parent, (distance - 1) as nat);
            },
            None => {},
        }
    }
}

pub struct Environment {
    pub frames: Vec<Frame>,
}

impl View for Environment {
    type V = Seq<FrameModel>;

    open spec fn view(&self) -> Seq<FrameModel> {
        Seq::new(self.frames.len() as nat, |i: int| self.frames[i]@)
    }
}

impl Environment {
    pub open spec fn wf(&self) -> bool {
        chained(self@)
    }

    /// The number of frames.
    pub fn len(&self) -> (r: usize)
        ensures
            r == self@.len(),
    {
        self.frames.len()
    }

    /// An environment that holds the global frame and nothing else.
    pub fn new() -> (r: Self)
        ensures
            r.wf(),
            r@ =~= seq![FrameModel { values: Map::empty(), enclosing: None }],
    {
        let mut frames: Vec<Frame> = Vec::new();
        frames.push(Frame { values: StringHashMap::new(), enclosing: None });
        let r = Self { frames };
        assert(r@ =~= seq![FrameModel { values: Map::empty(), enclosing: None }]);
        r
    }

    /// Creates an empty frame enclosed by `enclosing` and returns its index.
    pub fn new_enclosed(&mut self, enclosing: usize) -> (frame: usize)
        requires
            old(self).wf(),
            enclosing < old(self)@.len(),
        ensures
            final(self).wf(),
            frame == old(self)@.len(),
            final(self)@ =~= enclose_spec(old(self)@, enclosing),
    {
        let frame = self.frames.len();
        self.frames.push(Frame { values: StringHashMap::new(), enclosing: Some(enclosing) });
        assert(self@ =~= enclose_spec(old(self)@, enclosing));
        frame
    }

    /// Binds `name` in `frame`, replacing what it was bound to there.
    pub fn define(&mut self, frame: usize, name: String, value: LoxValue)
        requires
            old(self).wf(),
            frame < old(self)@.len(),
        ensures
            final(self).wf(),
            final(self)@ =~= define_spec(old(self)@, frame, name@, value),
    {
        self.frames[frame].values.insert(name, value);
        assert(self@ =~= define_spec(old(self)@, frame, name@, value));
    }

    /// The frame `distance` links out from `frame`.
    pub fn ancestor(&self, frame: usize, distance: usize) -> (r: Option<usize>)
        requires
            self.wf(),
            frame < self@.len(),
        ensures
            r == ancestor_spec(self@, frame, distance as nat),
            r matches Some(target) ==> target <= frame,
    {
        let mut current: usize = frame;
        let mut remaining: usize = distance;
        while remaining > 0
            invariant
                self.wf(),
                current <= frame,
                frame < self@.len(),
                ancestor_spec(self@, frame, distance as nat) == ancestor_spec(
                    self@,
                    current,
                    remaining as nat,
                ),
            decreases remaining,
        {
            match self.frames[current].enclosing {
                Some(parent) => {
                    assert(self@[current as int].enclosing == Some(parent));
                    current = parent;
                },
                None => {
                    assert(self@[current as int].enclosing is None);
                    return None;
                },
            }
            remaining -= 1;
        }
        Some(current)
    }

    /// Reads `name` in the frame exactly `distance` links out from `frame`.
    pub fn get_at(&self, frame: usize, name: &str, distance: usize) -> (r: Option<LoxValue>)
        requires
            self.wf(),
            frame < self@.len(),
        ensures
            r == get_at_spec(self@, frame, name@, distance as nat),
    {
        match self.ancestor(frame, distance) {
            Some(target) => {
                assert(self@[target as int].values == self.frames[target as int].values@);
                match self.frames[target].values.get(name) {
                    Some(value) => Some(*value),
                    None => None,
                }
            },
            None => None,
        }
    }

    /// Overwrites `name` in the frame exactly `distance` links out from
    /// `frame`, and says whether it was bound there. Never creates a binding.
    pub fn assign_at(&mut self, frame: usize, name: &str, value: LoxValue, distance: usize) -> (r:
        bool)
        requires
            old(self).wf(),
            frame < old(self)@.len(),
        ensures
            final(self).wf(),
            r == assignable(old(self)@, frame, name@, distance as nat),
            final(self)@ =~= assign_at_spec(old(self)@, frame, name@, value, distance as nat),
    {
        match self.ancestor(frame, distance) {
            Some(target) => {
                assert(self@[target as int].values == self.frames[target as int].values@);
                if self.frames[target].values.contains_key(name) {
                    self.define(target, String::from_str(name), value);
                    true
                } else {
                    false
                }
            },
            None => false,
        }
    }

    /// Reads `name` in the nearest frame, from `frame` outwards, that binds it.
    pub fn get(&self, frame: usize, name: &str) -> (r: Option<LoxValue>)
        requires
            self.wf(),
            frame < self@.len(),
        ensures
            r == get_spec(self@, frame, name@),
    {
        let mut current: usize = frame;
        loop
            invariant
                self.wf(),
                current < self@.len(),
                get_spec(self@, frame, name@) == get_spec(self@, current, name@),
            decreases current,
        {
            assert(self@[current as int] == self.frames[current as int]@);
            match self.frames[current].values.get(name) {
                Some(value) => {
                    return Some(*value);
                },
                None => {},
            }
            match self.frames[current].enclosing {
                Some(parent) => {
                    current = parent;
                },
                None => {
                    return None;
                },
            }
        }
    }
}

} // verus!
