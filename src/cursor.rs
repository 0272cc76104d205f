use vstd::prelude::*;

use vec1::Vec1;

use crate::condition::NovelError;
use crate::variables::{bind, bind_variable, vars_view};

verus! {

#[verifier::external_type_specification]
#[verifier::external_body]
#[verifier::reject_recursive_types(I)]
pub struct ExVec1<I>(Vec1<I>);

/// The frames held by a scope stack, innermost last.
pub uninterp spec fn scope_stack(v: Vec1<Scope>) -> Seq<Scope>;

/// Relies on `Vec1`'s `Clone`, which clones the inner `Vec`; nothing is
/// stated of the copy.
pub assume_specification<I>[ <Vec1<I> as Clone>::clone ](v: &Vec1<I>) -> Vec1<I>
    where
        I: Clone,
;

/// Relies on `Vec1::new`: a stack holding exactly the one frame given.
#[verifier::external_body]
fn stack_new(first: Scope) -> (r: Vec1<Scope>)
    ensures
        scope_stack(r) == seq![first],
{
    Vec1::new(first)
}

/// Relies on `Vec1::as_vec`: the frames in order, never none of them.
#[verifier::external_body]
pub(crate) fn stack_frames(v: &Vec1<Scope>) -> (r: &Vec<Scope>)
    ensures
        r@ == scope_stack(*v),
        r@.len() >= 1,
{
    v.as_vec()
}

/// Relies on `Vec1::push`: the frame is added on top.
#[verifier::external_body]
pub(crate) fn stack_push(v: &mut Vec1<Scope>, s: Scope)
    ensures
        scope_stack(*final(v)) == scope_stack(*old(v)).push(s),
{
    v.push(s)
}

/// Relies on `Vec1::truncate`: for a positive length, the frames above it are
/// dropped; a stack that is no longer stays as it is.
#[verifier::external_body]
pub(crate) fn stack_truncate(v: &mut Vec1<Scope>, len: usize)
    requires
        len > 0,
    ensures
        scope_stack(*final(v)) == if len < scope_stack(*old(v)).len() {
            scope_stack(*old(v)).take(len as int)
        } else {
            scope_stack(*old(v))
        },
{
    let _ = v.truncate(len);
}

/// Relies on `Vec1::last_mut`: the innermost frame is overwritten.
#[verifier::external_body]
pub(crate) fn stack_set_last(v: &mut Vec1<Scope>, s: Scope)
    ensures
        scope_stack(*final(v)) == scope_stack(*old(v)).update(
            scope_stack(*old(v)).len() - 1,
            s,
        ),
{
    *v.last_mut() = s;
}

/// Relies on `Vec1::try_from_vec`: a stack is made from any frames but none.
#[verifier::external_body]
fn stack_from_vec(frames: Vec<Scope>) -> (r: Option<Vec1<Scope>>)
    ensures
        frames@.len() == 0 <==> r is None,
        r matches Some(v) ==> scope_stack(v) == frames@,
{
    Vec1::try_from_vec(frames).ok()
}

/// A cursor taken apart into plain values, for storage.
pub struct SavedState {
    pub scene: String,
    pub variables: Vec<(String, i32)>,
    pub scopes: Vec<Scope>,
}

pub open spec fn saved_view(s: SavedState) -> CursorView {
    CursorView { scene: s.scene@, vars: vars_view(s.variables@), scopes: s.scopes@ }
}

/// The cursor that stored values stand for; a cursor has at least one frame.
pub open spec fn restore_spec(s: SavedState) -> Option<CursorView> {
    if s.scopes@.len() == 0 {
        None
    } else {
        Some(saved_view(s))
    }
}

fn copy_variables(v: &Vec<(String, i32)>) -> (r: Vec<(String, i32)>)
    ensures
        vars_view(r@) == vars_view(v@),
{
    let mut r: Vec<(String, i32)> = Vec::new();
    let mut i: usize = 0;
    while i < v.len()
        invariant
            i <= v@.len(),
            r@.len() == i,
            forall|j: int| 0 <= j < i ==> r@[j].0@ == v@[j].0@ && r@[j].1 == v@[j].1,
        decreases v.len() - i,
    {
        r.push((v[i].0.clone(), v[i].1));
        i = i + 1;
    }
    assert(vars_view(r@) =~= vars_view(v@));
    r
}

fn copy_scopes(v: &Vec<Scope>) -> (r: Vec<Scope>)
    ensures
        r@ == v@,
{
    let mut r: Vec<Scope> = Vec::new();
    let mut i: usize = 0;
    while i < v.len()
        invariant
            i <= v@.len(),
            r@ == v@.take(i as int),
        decreases v.len() - i,
    {
        r.push(v[i]);
        i = i + 1;
        assert(r@ =~= v@.take(i as int));
    }
    assert(v@.take(i as int) =~= v@);
    r
}

/// Which arm of a conditional a frame entered.
#[derive(Debug, Clone, Copy, PartialEq, Eq, Structural)]
pub enum Branch {
    First,
    Middle(usize),
    Last,
}

/// One level of control-flow nesting: the choice last recorded in it, the arm
/// entered at its current node (if it entered one), and its position in its
/// body.
#[derive(Debug, Clone, Copy, PartialEq, Eq, Structural)]
pub struct Scope {
    pub choice: i32,
    pub branch: Option<Branch>,
    pub index: usize,
}

pub open spec fn fresh_scope() -> Scope {
    Scope { choice: 0, branch: None, index: 0 }
}

pub(crate) fn new_scope() -> (r: Scope)
    ensures
        r == fresh_scope(),
{
    Scope { choice: 0, branch: None, index: 0 }
}

/// Where a playthrough stands: the active scene, the variables and the scope
/// stack.
#[derive(Debug, Clone)]
pub struct NovelState {
    pub(crate) scene: String,
    pub(crate) variables: Vec<(String, i32)>,
    pub(crate) scopes: Vec1<Scope>,
}

pub struct CursorView {
    pub scene: Seq<char>,
    pub vars: Seq<(Seq<char>, i32)>,
    pub scopes: Seq<Scope>,
}

impl View for NovelState {
    type V = CursorView;

    open(crate) spec fn view(&self) -> CursorView {
        CursorView {
            scene: self.scene@,
            vars: vars_view(self.variables@),
            scopes: scope_stack(self.scopes),
        }
    }
}

/// The characters of the reserved variable name `choice`.
pub open spec fn choice_key() -> Seq<char> {
    seq!['c', 'h', 'o', 'i', 'c', 'e']
}

pub(crate) fn choice_name() -> (r: String)
    ensures
        r@ == choice_key(),
{
    let s = "choice";
    proof {
        reveal_strlit("choice");
    }
    s.to_owned()
}

/// A cursor at the top of `scene`, with no variables.
pub open spec fn start_view(scene: Seq<char>, vars: Seq<(Seq<char>, i32)>) -> CursorView {
    CursorView { scene, vars, scopes: seq![fresh_scope()] }
}

impl NovelState {
    /// A cursor at the top of the scene named `scene`, with no variables set.
    pub fn start(scene: String) -> (r: NovelState)
        ensures
            r@ == start_view(scene@, Seq::empty()),
    {
        let variables: Vec<(String, i32)> = Vec::new();
        let r = NovelState { scene, variables, scopes: stack_new(new_scope()) };
        assert(r@.vars =~= Seq::<(Seq<char>, i32)>::empty());
        r
    }

    /// Sets a variable; the name `choice` is refused, and the cursor is then
    /// left as it was.
    pub fn set_variable(&mut self, name: String, data: i32) -> (r: Result<(), NovelError>)
        ensures
            name@ == choice_key() ==> r == Err::<(), NovelError>(NovelError::ReservedName)
                && final(self)@ == old(self)@,
            name@ != choice_key() ==> r is Ok && final(self)@ == (CursorView {
                vars: bind(old(self)@.vars, name@, data),
                ..old(self)@
            }),
    {
        let reserved = choice_name();
        if name == reserved {
            return Err(NovelError::ReservedName);
        }
        bind_variable(&mut self.variables, name, data);
        Ok(())
    }

    /// Moves to the top of `scene` with a single fresh frame; variables stay.
    pub(crate) fn restart(&mut self, scene: String)
        ensures
            final(self)@ == start_view(scene@, old(self)@.vars),
    {
        self.scene = scene;
        self.scopes = stack_new(new_scope());
    }

    /// The cursor as plain values.
    pub fn save(&self) -> (r: SavedState)
        ensures
            saved_view(r) == self@,
            self@.scopes.len() >= 1,
    {
        SavedState {
            scene: self.scene.clone(),
            variables: copy_variables(&self.variables),
            scopes: copy_scopes(stack_frames(&self.scopes)),
        }
    }

    /// The cursor that saved values stand for; none when they hold no frame.
    pub fn restore(saved: SavedState) -> (r: Option<NovelState>)
        ensures
            match r {
                Some(st) => restore_spec(saved) == Some(st@),
                None => restore_spec(saved) is None,
            },
    {
        let SavedState { scene, variables, scopes } = saved;
        match stack_from_vec(scopes) {
            Some(stack) => Some(NovelState { scene, variables, scopes: stack }),
            None => None,
        }
    }

    /// Records a choice in the innermost frame.
    pub fn set_choice(&mut self, choice: i32)
        ensures
            old(self)@.scopes.len() >= 1,
            final(self)@ == (CursorView {
                scopes: old(self)@.scopes.update(
                    old(self)@.scopes.len() - 1,
                    Scope { choice, ..old(self)@.scopes.last() },
                ),
                ..old(self)@
            }),
    {
        let frames = stack_frames(&self.scopes);
        let last = frames[frames.len() - 1];
        stack_set_last(&mut self.scopes, Scope { choice, ..last });
    }
}

} // verus!
