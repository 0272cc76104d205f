use vstd::prelude::*;

use crate::condition::{check_spec, Condition, NovelError};
use crate::cursor::{
    choice_key, choice_name, fresh_scope, new_scope, stack_frames, stack_push, stack_set_last,
    stack_truncate, start_view, Branch, CursorView, NovelState, Scope,
};
use crate::node::{SceneNode, SceneNodeControl, SceneNodeUser, UserView};
use crate::script::{errors_view, parse_script, script_spec, LineError};
use crate::tree::{build_tree, nodes_view, tree_spec, BuildError};
use crate::variables::{bind, bind_variable, vars_view};

verus! {

/// The most jumps one call of `next` follows before it gives up.
pub const MAX_JUMPS: usize = 64;

/// Why a script could not be registered as a scene.
#[derive(Debug)]
pub enum ScriptError {
    /// Lines that could not be read, each with its number counted from one.
    Parse(Vec<(usize, LineError)>),
    /// The statements do not nest into a tree.
    Build(BuildError),
}

/// The scenes of a script: each name with its root node sequence.
#[derive(Debug, Clone)]
pub struct Novel {
    scenes: Vec<(String, Vec<SceneNode>)>,
}

impl View for Novel {
    type V = Seq<(Seq<char>, Seq<SceneNode>)>;

    closed spec fn view(&self) -> Seq<(Seq<char>, Seq<SceneNode>)> {
        self.scenes@.map_values(|e: (String, Vec<SceneNode>)| (e.0@, e.1@))
    }
}

proof fn lemma_scene_of_bounded(scenes: Seq<(Seq<char>, Seq<SceneNode>)>, name: Seq<char>)
    requires
        forall|k: int| 0 <= k < scenes.len() ==> #[trigger] scenes[k].1.len() <= usize::MAX,
    ensures
        scene_of(scenes, name) matches Some(r) ==> r.len() <= usize::MAX,
    decreases scenes.len(),
{
    if scenes.len() > 0 && scenes[0].0 != name {
        assert forall|k: int| 0 <= k < scenes.drop_first().len() implies #[trigger] scenes.drop_first()[k].1.len()
            <= usize::MAX by {
            assert(scenes.drop_first()[k] == scenes[k + 1]);
        }
        lemma_scene_of_bounded(scenes.drop_first(), name);
    }
}

/// A scene registered in a `Novel` holds at most `usize::MAX` nodes.
pub proof fn lemma_scene_fits(novel: Novel, name: Seq<char>)
    ensures
        scene_of(novel@, name) matches Some(r) ==> r.len() <= usize::MAX,
{
    assert forall|k: int| 0 <= k < novel@.len() implies #[trigger] novel@[k].1.len() <= usize::MAX by {
        let v = novel.scenes@[k].1;
        assert(v@.len() == v.len());
    }
    lemma_scene_of_bounded(novel@, name);
}

impl Default for Novel {
    fn default() -> (r: Novel)
        ensures
            r@ == Seq::<(Seq<char>, Seq<SceneNode>)>::empty(),
    {
        Novel::new()
    }
}

/// The root sequence registered under `name`: the first registration of it.
pub open spec fn scene_of(scenes: Seq<(Seq<char>, Seq<SceneNode>)>, name: Seq<char>) -> Option<
    Seq<SceneNode>,
>
    decreases scenes.len(),
{
    if scenes.len() == 0 {
        None
    } else if scenes[0].0 == name {
        Some(scenes[0].1)
    } else {
        scene_of(scenes.drop_first(), name)
    }
}

/// What walking one frame came to.
pub enum Walk {
    /// A host-visible node was reached.
    Emit(UserView),
    /// The frame's body has no node left.
    Exhausted,
    /// A jump to the named scene was reached.
    Jump(Seq<char>),
    Fail(NovelError),
}

/// The body of the arm `b` of the conditional `node`, if it has that arm.
pub open spec fn arm_body(node: SceneNode, b: Branch) -> Option<Seq<SceneNode>> {
    match node {
        SceneNode::Control(SceneNodeControl::If { content, else_ifs, else_content, .. }) => match b {
            Branch::First => Some(content@),
            Branch::Middle(n) => if n < else_ifs@.len() {
                Some(else_ifs@[n as int].1@)
            } else {
                None
            },
            Branch::Last => match else_content {
                Some(c) => Some(c@),
                None => None,
            },
        },
        _ => None,
    }
}

/// The arm chosen among `else if` arms from the `k`-th on: the first whose
/// condition holds, else the `else` arm if there is one, else none. An arm
/// after the chosen one is never evaluated.
pub open spec fn select_from(
    arms: Seq<(Condition, Vec<SceneNode>)>,
    k: nat,
    has_else: bool,
    vars: Seq<(Seq<char>, i32)>,
) -> Result<Option<Branch>, NovelError>
    decreases arms.len() - k,
{
    if k >= arms.len() {
        Ok(
            if has_else {
                Some(Branch::Last)
            } else {
                None
            },
        )
    } else {
        match check_spec(arms[k as int].0, vars) {
            Err(e) => Err(e),
            Ok(true) => Ok(Some(Branch::Middle(k as usize))),
            Ok(false) => select_from(arms, k + 1, has_else, vars),
        }
    }
}

/// The arm of a conditional that is entered under `vars`.
pub open spec fn select(
    cond: Condition,
    arms: Seq<(Condition, Vec<SceneNode>)>,
    has_else: bool,
    vars: Seq<(Seq<char>, i32)>,
) -> Result<Option<Branch>, NovelError> {
    match check_spec(cond, vars) {
        Err(e) => Err(e),
        Ok(true) => Ok(Some(Branch::First)),
        Ok(false) => select_from(arms, 0, has_else, vars),
    }
}

pub open spec fn with_frame(c: CursorView, i: nat, s: Scope) -> CursorView {
    CursorView { scopes: c.scopes.update(i as int, s), ..c }
}

/// Progress measure of frame `i` within its body.
pub open spec fn frame_measure(body: Seq<SceneNode>, i: nat, c: CursorView) -> nat {
    if i < c.scopes.len() && c.scopes[i as int].index < body.len() {
        (2 * (body.len() - c.scopes[i as int].index) + if i + 1 == c.scopes.len() {
            1int
        } else {
            0int
        }) as nat
    } else {
        0
    }
}

/// Walks frame `i`, whose body is `body`, until a host-visible node, a jump,
/// a failure, or the end of the body. Frames above `i` belong to the arm that
/// frame `i` has entered.
pub open spec fn walk(body: Seq<SceneNode>, i: nat, c: CursorView) -> (Walk, CursorView)
    decreases body, frame_measure(body, i, c),
{
    if i >= c.scopes.len() {
        (Walk::Fail(NovelError::BrokenCursor), c)
    } else {
        let s = c.scopes[i as int];
        if s.index >= body.len() || s.index == usize::MAX {
            if i + 1 == c.scopes.len() {
                (Walk::Exhausted, c)
            } else {
                (Walk::Fail(NovelError::BrokenCursor), c)
            }
        } else {
            let node = body[s.index as int];
            if i + 1 < c.scopes.len() {
                match s.branch {
                    None => (Walk::Fail(NovelError::BrokenCursor), c),
                    Some(b) => match arm_body(node, b) {
                        None => (Walk::Fail(NovelError::BrokenCursor), c),
                        Some(arm) => {
                            let (r, c2) = walk(arm, i + 1, c);
                            match r {
                                Walk::Exhausted => walk(
                                    body,
                                    i,
                                    CursorView {
                                        scopes: c.scopes.take(i as int).push(
                                            Scope { branch: None, index: (s.index + 1) as usize, ..s },
                                        ),
                                        ..c2
                                    },
                                ),
                                _ => (r, c2),
                            }
                        },
                    },
                }
            } else {
                match node {
                    SceneNode::User(u) => (
                        Walk::Emit(u@),
                        with_frame(c, i, Scope { index: (s.index + 1) as usize, ..s }),
                    ),
                    SceneNode::Control(SceneNodeControl::Jump(t)) => (Walk::Jump(t@), c),
                    SceneNode::Control(SceneNodeControl::If { cond, else_ifs, else_content, .. }) => {
                        let c1 = CursorView { vars: bind(c.vars, choice_key(), s.choice), ..c };
                        match select(cond, else_ifs@, else_content is Some, c1.vars) {
                            Err(e) => (Walk::Fail(e), c1),
                            Ok(None) => walk(
                                body,
                                i,
                                with_frame(c1, i, Scope { index: (s.index + 1) as usize, ..s }),
                            ),
                            Ok(Some(b)) => walk(
                                body,
                                i,
                                CursorView {
                                    scopes: c1.scopes.update(
                                        i as int,
                                        Scope { branch: Some(b), ..s },
                                    ).push(fresh_scope()),
                                    ..c1
                                },
                            ),
                        }
                    },
                }
            }
        }
    }
}

/// Walking frame `i` leaves the scene and every frame below `i` as they
/// were, and frame `i` itself in place.
pub proof fn lemma_walk_frames(body: Seq<SceneNode>, i: nat, c: CursorView)
    requires
        i < c.scopes.len(),
    ensures
        walk(body, i, c).1.scene == c.scene,
        walk(body, i, c).1.scopes.len() > i,
        walk(body, i, c).1.scopes.take(i as int) == c.scopes.take(i as int),
    decreases body, frame_measure(body, i, c),
{
    let s = c.scopes[i as int];
    if s.index >= body.len() || s.index == usize::MAX {
    } else {
        let node = body[s.index as int];
        if i + 1 < c.scopes.len() {
            if let Some(b) = s.branch {
                if let Some(arm) = arm_body(node, b) {
                    lemma_walk_frames(arm, i + 1, c);
                    let (r, c2) = walk(arm, i + 1, c);
                    assert(c2.scopes.take(i as int) =~= c2.scopes.take((i + 1) as int).take(i as int));
                    assert(c.scopes.take(i as int) =~= c.scopes.take((i + 1) as int).take(i as int));
                    if r is Exhausted {
                        let c3 = CursorView {
                            scopes: c.scopes.take(i as int).push(
                                Scope { branch: None, index: (s.index + 1) as usize, ..s },
                            ),
                            ..c2
                        };
                        lemma_walk_frames(body, i, c3);
                        assert(c3.scopes.take(i as int) =~= c.scopes.take(i as int));
                    }
                }
            }
        } else {
            match node {
                SceneNode::User(u) => {
                    let c1 = with_frame(c, i, Scope { index: (s.index + 1) as usize, ..s });
                    assert(c1.scopes.take(i as int) =~= c.scopes.take(i as int));
                },
                SceneNode::Control(SceneNodeControl::Jump(t)) => {},
                SceneNode::Control(SceneNodeControl::If { cond, else_ifs, else_content, .. }) => {
                    let c1 = CursorView { vars: bind(c.vars, choice_key(), s.choice), ..c };
                    match select(cond, else_ifs@, else_content is Some, c1.vars) {
                        Err(e) => {},
                        Ok(None) => {
                            let c2 = with_frame(c1, i, Scope { index: (s.index + 1) as usize, ..s });
                            lemma_walk_frames(body, i, c2);
                            assert(c2.scopes.take(i as int) =~= c.scopes.take(i as int));
                        },
                        Ok(Some(b)) => {
                            let c2 = CursorView {
                                scopes: c1.scopes.update(i as int, Scope { branch: Some(b), ..s }).push(
                                    fresh_scope(),
                                ),
                                ..c1
                            };
                            lemma_walk_frames(body, i, c2);
                            assert(c2.scopes.take(i as int) =~= c.scopes.take(i as int));
                        },
                    }
                },
            }
        }
    }
}

/// What one call of `next` does, following at most `jumps` jumps: the node
/// handed to the host (none once the scene is over), or the error, and the
/// cursor afterwards.
pub open spec fn advance(
    scenes: Seq<(Seq<char>, Seq<SceneNode>)>,
    c: CursorView,
    jumps: nat,
) -> (Result<Option<UserView>, NovelError>, CursorView)
    decreases jumps,
{
    match scene_of(scenes, c.scene) {
        None => (Err(NovelError::UnknownScene), c),
        Some(root) => {
            let (w, c2) = walk(root, 0, c);
            match w {
                Walk::Emit(u) => (Ok(Some(u)), c2),
                Walk::Exhausted => (Ok(None), c2),
                Walk::Fail(e) => (Err(e), c2),
                Walk::Jump(t) => if jumps == 0 {
                    (Err(NovelError::JumpLimit), c2)
                } else if scene_of(scenes, t) is None {
                    (Err(NovelError::UnknownScene), c2)
                } else {
                    advance(scenes, start_view(t, c2.vars), (jumps - 1) as nat)
                },
            }
        },
    }
}

/// What the walker does on one call of `next`. A call that fails leaves the
/// cursor as it was before the call.
pub open spec fn next_spec(scenes: Seq<(Seq<char>, Seq<SceneNode>)>, c: CursorView) -> (Result<
    Option<UserView>,
    NovelError,
>, CursorView) {
    let (r, c2) = advance(scenes, c, MAX_JUMPS as nat);
    if r is Err {
        (r, c)
    } else {
        (r, c2)
    }
}

enum WalkStep {
    Emit(SceneNodeUser),
    Exhausted,
    Jump(String),
    Fail(NovelError),
}

impl WalkStep {
    spec fn view(&self) -> Walk {
        match self {
            WalkStep::Emit(u) => Walk::Emit(u@),
            WalkStep::Exhausted => Walk::Exhausted,
            WalkStep::Jump(t) => Walk::Jump(t@),
            WalkStep::Fail(e) => Walk::Fail(*e),
        }
    }
}

pub open spec fn result_view(r: Result<Option<SceneNodeUser>, NovelError>) -> Result<
    Option<UserView>,
    NovelError,
> {
    match r {
        Ok(Some(u)) => Ok(Some(u@)),
        Ok(None) => Ok(None),
        Err(e) => Err(e),
    }
}

proof fn lemma_arm_smaller(body: Seq<SceneNode>, k: int, b: Branch)
    requires
        0 <= k < body.len(),
        arm_body(body[k], b) is Some,
    ensures
        decreases_to!(body => arm_body(body[k], b)->Some_0),
{
    let node = body[k];
    assert(decreases_to!(body => node));
    if let SceneNode::Control(ctl) = node {
        assert(decreases_to!(node => ctl));
        if let SceneNodeControl::If { cond, content, else_ifs, else_content } = ctl {
            match b {
                Branch::First => {
                    assert(decreases_to!(ctl => content));
                    assert(decreases_to!(content => content@));
                },
                Branch::Middle(n) => {
                    assert(decreases_to!(ctl => else_ifs));
                    assert(decreases_to!(else_ifs => else_ifs@));
                    assert(decreases_to!(else_ifs@ => else_ifs@[n as int]));
                    assert(decreases_to!(else_ifs@[n as int] => else_ifs@[n as int].1));
                    assert(decreases_to!(else_ifs@[n as int].1 => else_ifs@[n as int].1@));
                },
                Branch::Last => {
                    let c = else_content->Some_0;
                    assert(decreases_to!(ctl => else_content));
                    assert(decreases_to!(else_content => c));
                    assert(decreases_to!(c => c@));
                },
            }
        }
    }
}

fn arm_of(node: &SceneNode, b: Branch) -> (r: Option<&Vec<SceneNode>>)
    ensures
        match r {
            Some(v) => arm_body(*node, b) == Some(v@),
            None => arm_body(*node, b) is None,
        },
{
    match node {
        SceneNode::Control(SceneNodeControl::If { content, else_ifs, else_content, .. }) => match b {
            Branch::First => Some(content),
            Branch::Middle(n) => if n < else_ifs.len() {
                Some(&else_ifs[n].1)
            } else {
                None
            },
            Branch::Last => match else_content {
                Some(c) => Some(c),
                None => None,
            },
        },
        _ => None,
    }
}

fn select_branch(
    cond: &Condition,
    arms: &Vec<(Condition, Vec<SceneNode>)>,
    has_else: bool,
    vars: &Vec<(String, i32)>,
) -> (r: Result<Option<Branch>, NovelError>)
    ensures
        r == select(*cond, arms@, has_else, vars_view(vars@)),
{
    match cond.check(vars) {
        Err(e) => {
            return Err(e);
        },
        Ok(true) => {
            return Ok(Some(Branch::First));
        },
        Ok(false) => {},
    }
    let mut k: usize = 0;
    while k < arms.len()
        invariant
            k <= arms@.len(),
            select_from(arms@, k as nat, has_else, vars_view(vars@)) == select(
                *cond,
                arms@,
                has_else,
                vars_view(vars@),
            ),
        decreases arms.len() - k,
    {
        assert(select_from(arms@, k as nat, has_else, vars_view(vars@)) == match check_spec(
            arms@[k as int].0,
            vars_view(vars@),
        ) {
            Err(e) => Err(e),
            Ok(true) => Ok(Some(Branch::Middle(k))),
            Ok(false) => select_from(arms@, (k + 1) as nat, has_else, vars_view(vars@)),
        });
        match arms[k].0.check(vars) {
            Err(e) => {
                return Err(e);
            },
            Ok(true) => {
                return Ok(Some(Branch::Middle(k)));
            },
            Ok(false) => {},
        }
        k = k + 1;
    }
    if has_else {
        Ok(Some(Branch::Last))
    } else {
        Ok(None)
    }
}

fn walk_frame(body: &Vec<SceneNode>, i: usize, st: &mut NovelState) -> (r: WalkStep)
    ensures
        (r.view(), final(st)@) == walk(body@, i as nat, old(st)@),
    decreases body@,
{
    loop
        invariant
            walk(body@, i as nat, st@) == walk(body@, i as nat, old(st)@),
        decreases frame_measure(body@, i as nat, st@),
    {
        let frames = stack_frames(&st.scopes);
        let n = frames.len();
        if i >= n {
            return WalkStep::Fail(NovelError::BrokenCursor);
        }
        let s = frames[i];
        if s.index >= body.len() {
            if i + 1 == n {
                return WalkStep::Exhausted;
            } else {
                return WalkStep::Fail(NovelError::BrokenCursor);
            }
        }
        let node = &body[s.index];
        if i + 1 < n {
            let b = match s.branch {
                Some(b) => b,
                None => {
                    return WalkStep::Fail(NovelError::BrokenCursor);
                },
            };
            let arm = match arm_of(node, b) {
                Some(arm) => arm,
                None => {
                    return WalkStep::Fail(NovelError::BrokenCursor);
                },
            };
            proof {
                lemma_arm_smaller(body@, s.index as int, b);
                lemma_walk_frames(arm@, (i + 1) as nat, st@);
            }
            let ghost c = st@;
            let r = walk_frame(arm, i + 1, st);
            match r {
                WalkStep::Exhausted => {
                    let ghost c2 = st@;
                    stack_truncate(&mut st.scopes, i + 1);
                    stack_set_last(&mut st.scopes, Scope { branch: None, index: s.index + 1, ..s });
                    assert(c2.scopes.take(i as int) =~= c2.scopes.take((i + 1) as int).take(i as int));
                    assert(c.scopes.take(i as int) =~= c.scopes.take((i + 1) as int).take(i as int));
                    assert(st@.scopes =~= c.scopes.take(i as int).push(
                        Scope { branch: None, index: (s.index + 1) as usize, ..s },
                    ));
                },
                _ => {
                    return r;
                },
            }
        } else {
            match node {
                SceneNode::User(u) => {
                    stack_set_last(&mut st.scopes, Scope { index: s.index + 1, ..s });
                    return WalkStep::Emit(u.duplicate());
                },
                SceneNode::Control(SceneNodeControl::Jump(t)) => {
                    return WalkStep::Jump(t.clone());
                },
                SceneNode::Control(SceneNodeControl::If { cond, else_ifs, else_content, .. }) => {
                    bind_variable(&mut st.variables, choice_name(), s.choice);
                    let sel = select_branch(cond, else_ifs, else_content.is_some(), &st.variables);
                    match sel {
                        Err(e) => {
                            return WalkStep::Fail(e);
                        },
                        Ok(None) => {
                            stack_set_last(&mut st.scopes, Scope { index: s.index + 1, ..s });
                        },
                        Ok(Some(b)) => {
                            stack_set_last(&mut st.scopes, Scope { branch: Some(b), ..s });
                            stack_push(&mut st.scopes, new_scope());
                        },
                    }
                },
            }
        }
    }
}

proof fn lemma_scene_found(scenes: Seq<(Seq<char>, Seq<SceneNode>)>, name: Seq<char>, i: int)
    requires
        0 <= i < scenes.len(),
        scenes[i].0 == name,
        forall|j: int| 0 <= j < i ==> scenes[j].0 != name,
    ensures
        scene_of(scenes, name) == Some(scenes[i].1),
    decreases i,
{
    if i > 0 {
        lemma_scene_found(scenes.drop_first(), name, i - 1);
    }
}

proof fn lemma_scene_missing(scenes: Seq<(Seq<char>, Seq<SceneNode>)>, name: Seq<char>)
    requires
        forall|j: int| 0 <= j < scenes.len() ==> scenes[j].0 != name,
    ensures
        scene_of(scenes, name) is None,
    decreases scenes.len(),
{
    if scenes.len() > 0 {
        lemma_scene_missing(scenes.drop_first(), name);
    }
}

/// The scenes after registering `nodes` as `name`: an earlier scene of that
/// name is replaced, else the scene is appended.
pub open spec fn register(
    scenes: Seq<(Seq<char>, Seq<SceneNode>)>,
    name: Seq<char>,
    nodes: Seq<SceneNode>,
) -> Seq<(Seq<char>, Seq<SceneNode>)>
    decreases scenes.len(),
{
    if scenes.len() == 0 {
        seq![(name, nodes)]
    } else if scenes[0].0 == name {
        scenes.update(0, (name, nodes))
    } else {
        seq![scenes[0]] + register(scenes.drop_first(), name, nodes)
    }
}

proof fn lemma_register_found(
    scenes: Seq<(Seq<char>, Seq<SceneNode>)>,
    name: Seq<char>,
    nodes: Seq<SceneNode>,
    i: int,
)
    requires
        0 <= i < scenes.len(),
        scenes[i].0 == name,
        forall|j: int| 0 <= j < i ==> scenes[j].0 != name,
    ensures
        register(scenes, name, nodes) == scenes.update(i, (name, nodes)),
    decreases i,
{
    if i > 0 {
        lemma_register_found(scenes.drop_first(), name, nodes, i - 1);
        assert(seq![scenes[0]] + scenes.drop_first().update(i - 1, (name, nodes)) =~= scenes.update(
            i,
            (name, nodes),
        ));
    }
}

proof fn lemma_register_missing(
    scenes: Seq<(Seq<char>, Seq<SceneNode>)>,
    name: Seq<char>,
    nodes: Seq<SceneNode>,
)
    requires
        forall|j: int| 0 <= j < scenes.len() ==> scenes[j].0 != name,
    ensures
        register(scenes, name, nodes) == scenes.push((name, nodes)),
    decreases scenes.len(),
{
    if scenes.len() > 0 {
        lemma_register_missing(scenes.drop_first(), name, nodes);
        assert(seq![scenes[0]] + scenes.drop_first().push((name, nodes)) =~= scenes.push(
            (name, nodes),
        ));
    }
}

impl Novel {
    pub fn new() -> (r: Novel)
        ensures
            r@ == Seq::<(Seq<char>, Seq<SceneNode>)>::empty(),
    {
        let r = Novel { scenes: Vec::new() };
        assert(r@ =~= Seq::<(Seq<char>, Seq<SceneNode>)>::empty());
        r
    }

    /// Position of the first scene registered as `name`.
    fn find_scene(&self, name: &String) -> (r: Option<usize>)
        ensures
            match r {
                Some(i) => i < self@.len() && self@[i as int].0 == name@ && forall|j: int|
                    0 <= j < i ==> self@[j].0 != name@,
                None => forall|j: int| 0 <= j < self@.len() ==> self@[j].0 != name@,
            },
    {
        let mut i: usize = 0;
        while i < self.scenes.len()
            invariant
                i <= self@.len(),
                self@.len() == self.scenes@.len(),
                forall|j: int| 0 <= j < i ==> self@[j].0 != name@,
            decreases self.scenes.len() - i,
        {
            if self.scenes[i].0 == *name {
                return Some(i);
            }
            i = i + 1;
        }
        None
    }

    /// The root sequence of the scene named `name`.
    fn scene(&self, name: &String) -> (r: Option<&Vec<SceneNode>>)
        ensures
            match r {
                Some(v) => scene_of(self@, name@) == Some(v@),
                None => scene_of(self@, name@) is None,
            },
    {
        match self.find_scene(name) {
            Some(i) => {
                proof {
                    lemma_scene_found(self@, name@, i as int);
                }
                Some(&self.scenes[i].1)
            },
            None => {
                proof {
                    lemma_scene_missing(self@, name@);
                }
                None
            },
        }
    }

    /// Registers `data` as the scene `name`, in place of an earlier scene of
    /// that name.
    pub fn add_nodes(&mut self, name: String, data: Vec<SceneNode>)
        ensures
            final(self)@ == register(old(self)@, name@, data@),
    {
        match self.find_scene(&name) {
            Some(i) => {
                proof {
                    lemma_register_found(self@, name@, data@, i as int);
                }
                self.scenes.set(i, (name, data));
                assert(self@ =~= old(self)@.update(i as int, (name@, data@)));
            },
            None => {
                proof {
                    lemma_register_missing(self@, name@, data@);
                }
                self.scenes.push((name, data));
                assert(self@ =~= old(self)@.push((name@, data@)));
            },
        }
    }

    /// Reads the script `data` and registers it as the scene `name`. Every
    /// line that cannot be read is reported; on any error no scene changes.
    pub fn add_scene(&mut self, name: String, data: &str) -> (r: Result<(), ScriptError>)
        ensures
            match script_spec(data@) {
                Err(es) => final(self)@ == old(self)@ && match r {
                    Err(ScriptError::Parse(v)) => errors_view(v@) == es,
                    _ => false,
                },
                Ok(st) => match tree_spec(st) {
                    Err(e) => final(self)@ == old(self)@ && match r {
                        Err(ScriptError::Build(b)) => b == e,
                        _ => false,
                    },
                    Ok(t) => r is Ok && exists|nodes: Seq<SceneNode>|
                        nodes_view(nodes) == t && final(self)@ == register(
                            old(self)@,
                            name@,
                            nodes,
                        ),
                },
            },
    {
        let statements = match parse_script(data) {
            Ok(v) => v,
            Err(es) => {
                return Err(ScriptError::Parse(es));
            },
        };
        let nodes = match build_tree(statements) {
            Ok(t) => t,
            Err(e) => {
                return Err(ScriptError::Build(e));
            },
        };
        let ghost nv = nodes@;
        self.add_nodes(name, nodes);
        assert(nodes_view(nv) == tree_spec(script_spec(data@)->Ok_0)->Ok_0);
        Ok(())
    }

    /// A cursor at the top of `starting_scene`, with no variables set.
    pub fn new_state(&self, starting_scene: &str) -> (r: NovelState)
        ensures
            r@ == start_view(starting_scene@, Seq::empty()),
    {
        NovelState::start(starting_scene.to_owned())
    }

    /// Advances the cursor to the next host-visible node and returns it, or
    /// none once the scene is over. Conditionals and jumps on the way are
    /// resolved here.
    pub fn next(&self, state: &mut NovelState) -> (r: Result<Option<SceneNodeUser>, NovelError>)
        ensures
            (result_view(r), final(state)@) == next_spec(self@, old(state)@),
    {
        let before = state.save();
        let r = self.advance_state(state);
        if r.is_err() {
            match NovelState::restore(before) {
                Some(restored) => {
                    *state = restored;
                },
                None => {},
            }
        }
        r
    }

    fn advance_state(&self, state: &mut NovelState) -> (r: Result<Option<SceneNodeUser>, NovelError>)
        ensures
            (result_view(r), final(state)@) == advance(self@, old(state)@, MAX_JUMPS as nat),
    {
        let mut jumps: usize = MAX_JUMPS;
        loop
            invariant
                jumps <= MAX_JUMPS,
                advance(self@, state@, jumps as nat) == advance(self@, old(state)@, MAX_JUMPS as nat),
            decreases jumps,
        {
            let root = match self.scene(&state.scene) {
                Some(root) => root,
                None => {
                    return Err(NovelError::UnknownScene);
                },
            };
            let w = walk_frame(root, 0, state);
            match w {
                WalkStep::Emit(u) => {
                    return Ok(Some(u));
                },
                WalkStep::Exhausted => {
                    return Ok(None);
                },
                WalkStep::Fail(e) => {
                    return Err(e);
                },
                WalkStep::Jump(t) => {
                    if jumps == 0 {
                        return Err(NovelError::JumpLimit);
                    }
                    if self.scene(&t).is_none() {
                        return Err(NovelError::UnknownScene);
                    }
                    state.restart(t);
                    jumps = jumps - 1;
                },
            }
        }
    }
}

} // verus!
