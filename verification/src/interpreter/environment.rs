use crate::parser::{Value, ValueView};
use vstd::prelude::*;

verus! {

/// A variable of a frame: its name and what it holds.
#[derive(Debug)]
pub struct Variable {
    name: String,
    value: Value,
}

/// A frame of the environment: the variables declared in one scope, and
/// the place of the frame of the scope around it, if there is one.
///
/// The frames live side by side in the interpreter, which never gives
/// one up, so that a function can keep the place of the frame that it
/// was declared in.
#[derive(Debug)]
pub struct Environment {
    variables: Vec<Variable>,
    enclosing: Option<usize>,
}

/// The mathematical value of an [`Environment`]: what its variables
/// hold, by their names.
pub struct EnvironmentView {
    pub variables: Map<Seq<char>, ValueView>,
    pub enclosing: Option<nat>,
}

/// The declarations of a frame, in their order.
pub closed spec fn declarations(variables: Seq<Variable>) -> Seq<(Seq<char>, ValueView)> {
    Seq::new(variables.len(), |i: int| (variables[i].name@, variables[i].value@))
}

/// What the variables hold after `declarations`, the later of which
/// replace the earlier of the same name.
pub open spec fn held(declarations: Seq<(Seq<char>, ValueView)>) -> Map<Seq<char>, ValueView>
    decreases declarations.len(),
{
    if declarations.len() == 0 {
        Map::empty()
    } else {
        held(declarations.drop_last()).insert(declarations.last().0, declarations.last().1)
    }
}

/// A name that is not declared holds nothing.
pub proof fn lemma_held_absent(declarations: Seq<(Seq<char>, ValueView)>, name: Seq<char>)
    requires
        forall|i: int| 0 <= i < declarations.len() ==> declarations[i].0 != name,
    ensures
        !held(declarations).contains_key(name),
    decreases declarations.len(),
{
    if declarations.len() > 0 {
        lemma_held_absent(declarations.drop_last(), name);
    }
}

/// A name holds what its last declaration gave it.
pub proof fn lemma_held_last(
    declarations: Seq<(Seq<char>, ValueView)>,
    place: int,
    name: Seq<char>,
)
    requires
        0 <= place < declarations.len(),
        declarations[place].0 == name,
        forall|i: int| place < i < declarations.len() ==> declarations[i].0 != name,
    ensures
        held(declarations).contains_key(name),
        held(declarations)[name] == declarations[place].1,
    decreases declarations.len(),
{
    if place < declarations.len() - 1 {
        lemma_held_last(declarations.drop_last(), place, name);
    }
}

/// To replace what the last declaration of a name gave is to declare the
/// name anew.
pub proof fn lemma_held_update(
    declarations: Seq<(Seq<char>, ValueView)>,
    place: int,
    name: Seq<char>,
    value: ValueView,
)
    requires
        0 <= place < declarations.len(),
        declarations[place].0 == name,
        forall|i: int| place < i < declarations.len() ==> declarations[i].0 != name,
    ensures
        held(declarations.update(place, (name, value))) == held(declarations).insert(name, value),
    decreases declarations.len(),
{
    let updated = declarations.update(place, (name, value));
    if place == declarations.len() - 1 {
        assert(updated.drop_last() =~= declarations.drop_last());
        assert(held(updated) =~= held(declarations).insert(name, value));
    } else {
        lemma_held_update(declarations.drop_last(), place, name, value);
        assert(updated.drop_last() =~= declarations.drop_last().update(place, (name, value)));
        assert(updated.last() == declarations.last());
        assert(held(updated) =~= held(declarations).insert(name, value));
    }
}

impl View for Environment {
    type V = EnvironmentView;

    closed spec fn view(&self) -> EnvironmentView {
        EnvironmentView {
            variables: held(declarations(self.variables@)),
            enclosing: match self.enclosing {
                Some(place) => Some(place as nat),
                None => None,
            },
        }
    }
}

impl Environment {
    /// A frame with no frame around it.
    pub fn new() -> (frame: Environment)
        ensures
            frame@ == (EnvironmentView { variables: Map::empty(), enclosing: None }),
    {
        let frame = Environment { variables: Vec::new(), enclosing: None };
        assert(declarations(frame.variables@) =~= Seq::empty());
        frame
    }

    /// A frame inside the frame at `enclosing`.
    pub fn with_enclosing(enclosing: usize) -> (frame: Environment)
        ensures
            frame@ == (EnvironmentView {
                variables: Map::empty(),
                enclosing: Some(enclosing as nat),
            }),
    {
        let frame = Environment { variables: Vec::new(), enclosing: Some(enclosing) };
        assert(declarations(frame.variables@) =~= Seq::empty());
        frame
    }

    /// The place of the frame around this one.
    pub fn enclosing(&self) -> (place: Option<usize>)
        ensures
            self@.enclosing == match place {
                Some(place) => Some(place as nat),
                None => None,
            },
    {
        self.enclosing
    }

    /// Declares `variable` with `value`. A variable of that name that is
    /// there already gives way.
    pub fn declare(&mut self, variable: String, value: Value)
        ensures
            final(self)@ == (EnvironmentView {
                variables: old(self)@.variables.insert(variable@, value@),
                ..old(self)@
            }),
    {
        let ghost before = declarations(self.variables@);
        self.variables.push(Variable { name: variable, value });
        assert(declarations(self.variables@) =~= before.push((variable@, value@)));
        assert(declarations(self.variables@).drop_last() =~= before);
    }

    /// The place of the last declaration of `variable`.
    fn find(&self, variable: &String) -> (place: Option<usize>)
        ensures
            match place {
                Some(place) => {
                    &&& place < self.variables.len()
                    &&& self.variables[place as int].name@ == variable@
                    &&& forall|i: int|
                        place < i < self.variables.len() ==> self.variables[i].name@ != variable@
                },
                None => forall|i: int|
                    0 <= i < self.variables.len() ==> self.variables[i].name@ != variable@,
            },
    {
        let mut place = self.variables.len();
        while place > 0
            invariant
                place <= self.variables.len(),
                forall|i: int|
                    place <= i < self.variables.len() ==> self.variables[i].name@ != variable@,
            decreases place,
        {
            place -= 1;
            if self.variables[place].name == *variable {
                return Some(place);
            }
        }
        None
    }

    /// What `variable` holds, if it is declared in this frame.
    pub fn get(&self, variable: &String) -> (value: Option<Value>)
        ensures
            match value {
                Some(value) => self@.variables.contains_key(variable@) && self@.variables[variable@]
                    == value@,
                None => !self@.variables.contains_key(variable@),
            },
    {
        match self.find(variable) {
            Some(place) => {
                proof {
                    lemma_held_last(declarations(self.variables@), place as int, variable@);
                }
                Some(self.variables[place].value.clone())
            },
            None => {
                proof {
                    lemma_held_absent(declarations(self.variables@), variable@);
                }
                None
            },
        }
    }

    /// Gives `variable` the value `value`, if it is declared in this
    /// frame, and says whether it is.
    pub fn assign(&mut self, variable: &String, value: &Value) -> (assigned: bool)
        ensures
            assigned == old(self)@.variables.contains_key(variable@),
            final(self)@ == if assigned {
                EnvironmentView {
                    variables: old(self)@.variables.insert(variable@, value@),
                    ..old(self)@
                }
            } else {
                old(self)@
            },
    {
        match self.find(variable) {
            Some(place) => {
                let ghost before = declarations(self.variables@);
                proof {
                    lemma_held_last(before, place as int, variable@);
                    lemma_held_update(before, place as int, variable@, value@);
                }
                self.variables[place].value = value.clone();
                assert(declarations(self.variables@) =~= before.update(
                    place as int,
                    (variable@, value@),
                ));
                true
            },
            None => {
                proof {
                    lemma_held_absent(declarations(self.variables@), variable@);
                }
                false
            },
        }
    }
}

/// The frame `depth` scopes around the frame at `start`, if the chain of
/// frames is that long.
pub open spec fn ancestor(frames: Seq<EnvironmentView>, start: nat, depth: nat) -> Option<nat>
    decreases depth,
{
    if start >= frames.len() {
        None
    } else if depth == 0 {
        Some(start)
    } else {
        match frames[start as int].enclosing {
            Some(around) => ancestor(frames, around, (depth - 1) as nat),
            None => None,
        }
    }
}

/// A frame around another is one of the frames.
pub proof fn lemma_ancestor_is_frame(frames: Seq<EnvironmentView>, start: nat, depth: nat)
    ensures
        ancestor(frames, start, depth) matches Some(place) ==> place < frames.len(),
    decreases depth,
{
    if start < frames.len() && depth > 0 {
        if let Some(around) = frames[start as int].enclosing {
            lemma_ancestor_is_frame(frames, around, (depth - 1) as nat);
        }
    }
}

/// The mathematical values of the frames.
pub open spec fn frames_view(frames: Seq<Environment>) -> Seq<EnvironmentView> {
    Seq::new(frames.len(), |i: int| frames[i]@)
}

/// The place of the frame `depth` scopes around the frame at `start`.
pub fn frame_at_depth(frames: &Vec<Environment>, start: usize, depth: usize) -> (place: Option<
    usize,
>)
    ensures
        match place {
            Some(place) => place < frames.len() && ancestor(
                frames_view(frames@),
                start as nat,
                depth as nat,
            ) == Some(place as nat),
            None => ancestor(frames_view(frames@), start as nat, depth as nat) is None,
        },
{
    let mut place = start;
    let mut left = depth;
    while left > 0
        invariant
            ancestor(frames_view(frames@), start as nat, depth as nat) == ancestor(
                frames_view(frames@),
                place as nat,
                left as nat,
            ),
        decreases left,
    {
        if place >= frames.len() {
            return None;
        }
        match frames[place].enclosing() {
            Some(around) => {
                place = around;
            },
            None => {
                return None;
            },
        }
        left -= 1;
    }
    if place >= frames.len() {
        return None;
    }
    Some(place)
}

/// What `variable` holds in the frame `depth` scopes around the frame at
/// `start`.
pub open spec fn held_at_depth(
    frames: Seq<EnvironmentView>,
    start: nat,
    depth: nat,
    variable: Seq<char>,
) -> Option<ValueView> {
    match ancestor(frames, start, depth) {
        Some(place) => {
            let frame = frames[place as int];
            if frame.variables.contains_key(variable) {
                Some(frame.variables[variable])
            } else {
                None
            }
        },
        None => None,
    }
}

/// The frames after `variable` in the frame `depth` scopes around the
/// frame at `start` was given `value`; nothing if there is no such frame
/// or no such variable in it.
pub open spec fn assigned_at_depth(
    frames: Seq<EnvironmentView>,
    start: nat,
    depth: nat,
    variable: Seq<char>,
    value: ValueView,
) -> Option<Seq<EnvironmentView>> {
    match ancestor(frames, start, depth) {
        Some(place) => {
            let frame = frames[place as int];
            if frame.variables.contains_key(variable) {
                Some(
                    frames.update(
                        place as int,
                        EnvironmentView {
                            variables: frame.variables.insert(variable, value),
                            ..frame
                        },
                    ),
                )
            } else {
                None
            }
        },
        None => None,
    }
}

/// What `variable` holds in the frame `depth` scopes around the frame at
/// `start`, if the chain of frames is that long and the variable is
/// declared there.
pub fn get_at_depth(frames: &Vec<Environment>, start: usize, depth: usize, variable: &String) -> (value:
    Option<Value>)
    ensures
        match value {
            Some(value) => held_at_depth(
                frames_view(frames@),
                start as nat,
                depth as nat,
                variable@,
            ) == Some(value@),
            None => held_at_depth(frames_view(frames@), start as nat, depth as nat, variable@)
                is None,
        },
{
    match frame_at_depth(frames, start, depth) {
        Some(place) => frames[place].get(variable),
        None => None,
    }
}

/// Gives `variable` in the frame `depth` scopes around the frame at
/// `start` the value `value`. Says whether the chain of frames is that
/// long and the variable is declared there.
pub fn assign_at_depth(
    frames: &mut Vec<Environment>,
    start: usize,
    depth: usize,
    variable: &String,
    value: &Value,
) -> (assigned: bool)
    ensures
        match assigned_at_depth(
            frames_view(old(frames)@),
            start as nat,
            depth as nat,
            variable@,
            value@,
        ) {
            Some(after) => assigned && frames_view(final(frames)@) == after,
            None => !assigned && frames_view(final(frames)@) == frames_view(old(frames)@),
        },
{
    match frame_at_depth(frames, start, depth) {
        Some(place) => {
            let ghost before = frames_view(frames@);
            let ghost frame = before[place as int];
            let assigned = frames[place].assign(variable, value);
            if assigned {
                assert(frames_view(frames@) =~= before.update(
                    place as int,
                    EnvironmentView { variables: frame.variables.insert(variable@, value@), ..frame },
                ));
            } else {
                assert(frames_view(frames@) =~= before);
            }
            assigned
        },
        None => false,
    }
}

} // verus!
