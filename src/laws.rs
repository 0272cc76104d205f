use vstd::prelude::*;

use crate::condition::{
    check_spec, operand_value, predicate_spec, CompareableData, Condition, NovelError, Predicate,
};
use crate::cursor::{choice_key, restore_spec, saved_view, CursorView, SavedState, Scope};
use crate::node::SceneNode;
use crate::novel::{advance, next_spec, scene_of, select, select_from, walk, Walk, MAX_JUMPS};
use crate::variables::{bind, lemma_bind_lookup, lookup};
use crate::node::UserView;

verus! {

/// A frame walk that runs out of nodes leaves its frame as the innermost one,
/// past the end of its body.
proof fn lemma_exhausted_at_end(body: Seq<SceneNode>, i: nat, c: CursorView)
    requires
        walk(body, i, c).0 is Exhausted,
    ensures
        walk(body, i, walk(body, i, c).1) == walk(body, i, c),
    decreases body, crate::novel::frame_measure(body, i, c),
{
    let s = c.scopes[i as int];
    if i >= c.scopes.len() {
    } else if s.index >= body.len() || s.index == usize::MAX {
    } else {
        let node = body[s.index as int];
        if i + 1 < c.scopes.len() {
            if let Some(b) = s.branch {
                if let Some(arm) = crate::novel::arm_body(node, b) {
                    let (r, c2) = walk(arm, i + 1, c);
                    if r is Exhausted {
                        let c3 = CursorView {
                            scopes: c.scopes.take(i as int).push(
                                Scope { branch: None, index: (s.index + 1) as usize, ..s },
                            ),
                            ..c2
                        };
                        lemma_exhausted_at_end(body, i, c3);
                    }
                }
            }
        } else {
            match node {
                SceneNode::User(_) => {},
                SceneNode::Control(crate::node::SceneNodeControl::Jump(_)) => {},
                SceneNode::Control(
                    crate::node::SceneNodeControl::If { cond, else_ifs, else_content, .. },
                ) => {
                    let c1 = CursorView { vars: bind(c.vars, choice_key(), s.choice), ..c };
                    match select(cond, else_ifs@, else_content is Some, c1.vars) {
                        Err(_) => {},
                        Ok(None) => {
                            lemma_exhausted_at_end(
                                body,
                                i,
                                crate::novel::with_frame(
                                    c1,
                                    i,
                                    Scope { index: (s.index + 1) as usize, ..s },
                                ),
                            );
                        },
                        Ok(Some(b)) => {
                            lemma_exhausted_at_end(
                                body,
                                i,
                                CursorView {
                                    scopes: c1.scopes.update(i as int, Scope { branch: Some(b), ..s }).push(
                                        crate::cursor::fresh_scope(),
                                    ),
                                    ..c1
                                },
                            );
                        },
                    }
                },
            }
        }
    }
}

proof fn lemma_advance_finished(
    scenes: Seq<(Seq<char>, Seq<SceneNode>)>,
    c: CursorView,
    jumps: nat,
    more: nat,
)
    requires
        advance(scenes, c, jumps).0 == Ok::<Option<UserView>, NovelError>(None),
    ensures
        advance(scenes, advance(scenes, c, jumps).1, more) == advance(scenes, c, jumps),
    decreases jumps,
{
    let root = scene_of(scenes, c.scene)->Some_0;
    let (w, c2) = walk(root, 0, c);
    if w is Exhausted {
        lemma_exhausted_at_end(root, 0, c);
        crate::novel::lemma_walk_frames(root, 0, c);
    } else if let Walk::Jump(t) = w {
        lemma_advance_finished(scenes, crate::cursor::start_view(t, c2.vars), (jumps - 1) as nat, more);
    }
}

/// Once a call returns none without error, every further call on the cursor
/// it left returns none again and leaves the cursor as it is.
pub proof fn lemma_terminal_idempotent(scenes: Seq<(Seq<char>, Seq<SceneNode>)>, c: CursorView)
    requires
        next_spec(scenes, c).0 == Ok::<Option<UserView>, NovelError>(None),
    ensures
        next_spec(scenes, next_spec(scenes, c).1) == next_spec(scenes, c),
{
    lemma_advance_finished(scenes, c, MAX_JUMPS as nat, MAX_JUMPS as nat);
}

/// In a scene made of host-visible nodes only, a cursor at position `k` of
/// the top frame yields the `k`-th node and moves to `k + 1`; past the last
/// node it yields none.
pub proof fn lemma_flat_scene_in_order(
    scenes: Seq<(Seq<char>, Seq<SceneNode>)>,
    c: CursorView,
)
    requires
        scene_of(scenes, c.scene) is Some,
        forall|j: int|
            0 <= j < scene_of(scenes, c.scene)->Some_0.len() ==> #[trigger] scene_of(
                scenes,
                c.scene,
            )->Some_0[j] is User,
        c.scopes.len() == 1,
        scene_of(scenes, c.scene)->Some_0.len() <= usize::MAX,
    ensures
        ({
            let root = scene_of(scenes, c.scene)->Some_0;
            let k = c.scopes[0].index;
            if k < root.len() {
                next_spec(scenes, c) == (
                    Ok::<Option<UserView>, NovelError>(Some(root[k as int]->User_0@)),
                    CursorView { scopes: seq![Scope { index: (k + 1) as usize, ..c.scopes[0] }], ..c },
                )
            } else {
                next_spec(scenes, c) == (Ok::<Option<UserView>, NovelError>(None), c)
            }
        }),
{
    let root = scene_of(scenes, c.scene)->Some_0;
    let k = c.scopes[0].index;
    if k < root.len() && k != usize::MAX {
        assert(c.scopes.update(0, Scope { index: (k + 1) as usize, ..c.scopes[0] }) =~= seq![
            Scope { index: (k + 1) as usize, ..c.scopes[0] },
        ]);
    }
}

/// An `if` whose condition holds enters its first arm, whatever the other
/// arms' conditions say, even when they could not be evaluated.
pub proof fn lemma_if_arm_wins(
    cond: Condition,
    arms: Seq<(Condition, Vec<SceneNode>)>,
    has_else: bool,
    vars: Seq<(Seq<char>, i32)>,
)
    requires
        check_spec(cond, vars) == Ok::<bool, NovelError>(true),
    ensures
        select(cond, arms, has_else, vars) == Ok::<Option<crate::cursor::Branch>, NovelError>(
            Some(crate::cursor::Branch::First),
        ),
{
}

/// The first `elseif` arm whose condition holds is entered when every earlier
/// condition is false; the arms after it are never evaluated, so whatever
/// follows it gives the same result.
pub proof fn lemma_first_true_arm_wins(
    cond: Condition,
    arms: Seq<(Condition, Vec<SceneNode>)>,
    later: Seq<(Condition, Vec<SceneNode>)>,
    has_else: bool,
    vars: Seq<(Seq<char>, i32)>,
    k: nat,
)
    requires
        k < arms.len(),
        check_spec(cond, vars) == Ok::<bool, NovelError>(false),
        forall|j: int| 0 <= j < k ==> check_spec(#[trigger] arms[j].0, vars) == Ok::<bool, NovelError>(false),
        check_spec(arms[k as int].0, vars) == Ok::<bool, NovelError>(true),
    ensures
        select(cond, arms, has_else, vars) == Ok::<Option<crate::cursor::Branch>, NovelError>(
            Some(crate::cursor::Branch::Middle(k as usize)),
        ),
        select(cond, arms.take((k + 1) as int) + later, has_else, vars) == select(cond, arms, has_else, vars),
{
    lemma_select_from_prefix(arms, arms.take((k + 1) as int) + later, has_else, vars, 0, k);
}

proof fn lemma_select_from_prefix(
    arms: Seq<(Condition, Vec<SceneNode>)>,
    other: Seq<(Condition, Vec<SceneNode>)>,
    has_else: bool,
    vars: Seq<(Seq<char>, i32)>,
    j: nat,
    k: nat,
)
    requires
        j <= k < arms.len(),
        k < other.len(),
        forall|m: int| 0 <= m <= k ==> other[m] == arms[m],
        forall|m: int| j <= m < k ==> check_spec(#[trigger] arms[m].0, vars) == Ok::<bool, NovelError>(false),
        check_spec(arms[k as int].0, vars) == Ok::<bool, NovelError>(true),
    ensures
        select_from(arms, j, has_else, vars) == Ok::<Option<crate::cursor::Branch>, NovelError>(
            Some(crate::cursor::Branch::Middle(k as usize)),
        ),
        select_from(other, j, has_else, vars) == select_from(arms, j, has_else, vars),
    decreases k - j,
{
    if j < k {
        lemma_select_from_prefix(arms, other, has_else, vars, j + 1, k);
    }
}

/// With no condition true and an `else` arm, the `else` arm is entered;
/// without one, no arm is.
pub proof fn lemma_no_arm_true(
    cond: Condition,
    arms: Seq<(Condition, Vec<SceneNode>)>,
    has_else: bool,
    vars: Seq<(Seq<char>, i32)>,
)
    requires
        check_spec(cond, vars) == Ok::<bool, NovelError>(false),
        forall|j: int| 0 <= j < arms.len() ==> check_spec(#[trigger] arms[j].0, vars) == Ok::<bool, NovelError>(false),
    ensures
        select(cond, arms, has_else, vars) == Ok::<Option<crate::cursor::Branch>, NovelError>(
            if has_else {
                Some(crate::cursor::Branch::Last)
            } else {
                None
            },
        ),
{
    lemma_select_from_none(arms, has_else, vars, 0);
}

proof fn lemma_select_from_none(
    arms: Seq<(Condition, Vec<SceneNode>)>,
    has_else: bool,
    vars: Seq<(Seq<char>, i32)>,
    j: nat,
)
    requires
        forall|m: int| j <= m < arms.len() ==> check_spec(#[trigger] arms[m].0, vars) == Ok::<bool, NovelError>(false),
    ensures
        select_from(arms, j, has_else, vars) == Ok::<Option<crate::cursor::Branch>, NovelError>(
            if has_else {
                Some(crate::cursor::Branch::Last)
            } else {
                None
            },
        ),
    decreases arms.len() - j,
{
    if j < arms.len() {
        lemma_select_from_none(arms, has_else, vars, j + 1);
    }
}

/// A conditional is evaluated with `choice` standing for the choice recorded
/// in its own frame: whatever `choice` held before, from a nested frame or
/// anywhere else, makes no difference to the outcome.
pub proof fn lemma_choice_scoped(
    cond: Condition,
    vars1: Seq<(Seq<char>, i32)>,
    vars2: Seq<(Seq<char>, i32)>,
    recorded: i32,
)
    requires
        forall|name: Seq<char>| name != choice_key() ==> lookup(vars1, name) == lookup(vars2, name),
    ensures
        check_spec(cond, bind(vars1, choice_key(), recorded)) == check_spec(
            cond,
            bind(vars2, choice_key(), recorded),
        ),
{
    let a = bind(vars1, choice_key(), recorded);
    let b = bind(vars2, choice_key(), recorded);
    match cond.predicate {
        Predicate::Compare { first, compare, second } => {
            if let CompareableData::Variable(n) = first {
                lemma_bind_lookup(vars1, choice_key(), recorded, n@);
                lemma_bind_lookup(vars2, choice_key(), recorded, n@);
            }
            if let CompareableData::Variable(n) = second {
                lemma_bind_lookup(vars1, choice_key(), recorded, n@);
                lemma_bind_lookup(vars2, choice_key(), recorded, n@);
            }
            assert(operand_value(first, a) == operand_value(first, b));
            assert(operand_value(second, a) == operand_value(second, b));
        },
        Predicate::IsSet(n) => {
            lemma_bind_lookup(vars1, choice_key(), recorded, n@);
            lemma_bind_lookup(vars2, choice_key(), recorded, n@);
        },
    }
    assert(predicate_spec(cond.predicate, a) == predicate_spec(cond.predicate, b));
}

/// Restoring what was saved from a cursor gives back that cursor, so every
/// later call of `next` against the same scenes behaves as on the cursor it
/// came from.
pub proof fn lemma_save_restore(
    scenes: Seq<(Seq<char>, Seq<SceneNode>)>,
    c: CursorView,
    saved: SavedState,
)
    requires
        saved_view(saved) == c,
        c.scopes.len() >= 1,
    ensures
        restore_spec(saved) == Some(c),
        next_spec(scenes, restore_spec(saved)->Some_0) == next_spec(scenes, c),
{
}

/// When a nested frame has run out of nodes, the choice recorded in it makes
/// no difference to anything the enclosing frame does next: the outer level
/// goes on with its own recorded choice.
pub proof fn lemma_finished_frame_choice_invisible(
    body: Seq<SceneNode>,
    i: nat,
    c: CursorView,
    other: i32,
)
    requires
        i + 2 == c.scopes.len(),
        c.scopes[i as int].index < body.len(),
        c.scopes[i as int].index != usize::MAX,
        c.scopes[i as int].branch is Some,
        crate::novel::arm_body(
            body[c.scopes[i as int].index as int],
            c.scopes[i as int].branch->Some_0,
        ) is Some,
        c.scopes[(i + 1) as int].index >= crate::novel::arm_body(
            body[c.scopes[i as int].index as int],
            c.scopes[i as int].branch->Some_0,
        )->Some_0.len(),
    ensures
        walk(body, i, c) == walk(
            body,
            i,
            CursorView {
                scopes: c.scopes.update((i + 1) as int, Scope { choice: other, ..c.scopes[(i + 1) as int] }),
                ..c
            },
        ),
{
    let c2 = CursorView {
        scopes: c.scopes.update((i + 1) as int, Scope { choice: other, ..c.scopes[(i + 1) as int] }),
        ..c
    };
    let s = c.scopes[i as int];
    let arm = crate::novel::arm_body(body[s.index as int], s.branch->Some_0)->Some_0;
    assert(c2.scopes[i as int] == s);
    assert(c2.scopes[(i + 1) as int].index == c.scopes[(i + 1) as int].index);
    assert(walk(arm, i + 1, c) == (Walk::Exhausted, c));
    assert(walk(arm, i + 1, c2) == (Walk::Exhausted, c2));
    let next = Scope { branch: None, index: (s.index + 1) as usize, ..s };
    assert(c2.scopes.take(i as int) =~= c.scopes.take(i as int));
    assert((CursorView { scopes: c.scopes.take(i as int).push(next), ..c }) == (CursorView {
        scopes: c2.scopes.take(i as int).push(next),
        ..c2
    }));
}

/// The body that frame `i` walks: the scene's root for the top frame, else
/// the arm that the frame below it entered.
pub open spec fn frame_body(root: Seq<SceneNode>, scopes: Seq<Scope>, i: nat) -> Option<
    Seq<SceneNode>,
>
    decreases i,
{
    if i == 0 {
        Some(root)
    } else {
        match frame_body(root, scopes, (i - 1) as nat) {
            None => None,
            Some(b) => {
                let s = scopes[i - 1];
                if s.index < b.len() && s.index < usize::MAX && s.branch is Some {
                    crate::novel::arm_body(b[s.index as int], s.branch->Some_0)
                } else {
                    None
                }
            },
        }
    }
}

proof fn lemma_frame_body_prefix(root: Seq<SceneNode>, scopes: Seq<Scope>, j: nat, i: nat)
    requires
        j <= i,
        frame_body(root, scopes, i) is Some,
    ensures
        frame_body(root, scopes, j) is Some,
    decreases i - j,
{
    if j < i {
        lemma_frame_body_prefix(root, scopes, (j + 1) as nat, i);
    }
}

proof fn lemma_frame_body_fits(root: Seq<SceneNode>, scopes: Seq<Scope>, i: nat)
    requires
        root.len() <= usize::MAX,
    ensures
        frame_body(root, scopes, i) matches Some(b) ==> b.len() <= usize::MAX,
    decreases i,
{
    if i > 0 {
        lemma_frame_body_fits(root, scopes, (i - 1) as nat);
        if let Some(b) = frame_body(root, scopes, (i - 1) as nat) {
            let s = scopes[i - 1];
            if s.index < b.len() && s.index < usize::MAX && s.branch is Some {
                match b[s.index as int] {
                    SceneNode::Control(
                        crate::node::SceneNodeControl::If { content, else_ifs, else_content, .. },
                    ) => {
                        assert(content@.len() == content.len());
                        match s.branch->Some_0 {
                            crate::cursor::Branch::Middle(n) => {
                                if n < else_ifs@.len() {
                                    let v = else_ifs@[n as int].1;
                                    assert(v@.len() == v.len());
                                }
                            },
                            crate::cursor::Branch::Last => {
                                if let Some(e) = else_content {
                                    assert(e@.len() == e.len());
                                }
                            },
                            _ => {},
                        }
                    },
                    _ => {},
                }
            }
        }
    }
}

proof fn lemma_frame_body_agree(root: Seq<SceneNode>, s1: Seq<Scope>, s2: Seq<Scope>, j: nat)
    requires
        forall|k: int| 0 <= k < j ==> s1[k] == s2[k],
    ensures
        frame_body(root, s1, j) == frame_body(root, s2, j),
    decreases j,
{
    if j > 0 {
        lemma_frame_body_agree(root, s1, s2, (j - 1) as nat);
    }
}

/// Walking from frame `j` passes down through the arms entered on the way
/// and comes to what frame `i` comes to, unless frame `i` runs out of nodes.
proof fn lemma_walk_reaches(root: Seq<SceneNode>, c: CursorView, j: nat, i: nat)
    requires
        j <= i < c.scopes.len(),
        frame_body(root, c.scopes, i) is Some,
        !(walk(frame_body(root, c.scopes, i)->Some_0, i, c).0 is Exhausted),
    ensures
        walk(frame_body(root, c.scopes, j)->Some_0, j, c) == walk(
            frame_body(root, c.scopes, i)->Some_0,
            i,
            c,
        ),
    decreases i - j,
{
    if j < i {
        lemma_frame_body_prefix(root, c.scopes, (j + 1) as nat, i);
        lemma_walk_reaches(root, c, (j + 1) as nat, i);
    }
}

/// When the innermost frame, at any depth, stands at a conditional that
/// enters an arm starting with a host-visible node, `next` hands that node
/// out, tags the frame with the arm entered and opens a frame for the arm.
/// Together with the lemmas on `select`, exactly one arm (or none) is
/// entered, the first whose condition holds.
pub proof fn lemma_next_enters_selected_arm(
    scenes: Seq<(Seq<char>, Seq<SceneNode>)>,
    c: CursorView,
    i: nat,
    b: crate::cursor::Branch,
)
    requires
        scene_of(scenes, c.scene) is Some,
        i + 1 == c.scopes.len(),
        frame_body(scene_of(scenes, c.scene)->Some_0, c.scopes, i) is Some,
        scene_of(scenes, c.scene)->Some_0.len() <= usize::MAX,
        c.scopes[i as int].index < frame_body(scene_of(scenes, c.scene)->Some_0, c.scopes, i)->Some_0.len(),
        frame_body(scene_of(scenes, c.scene)->Some_0, c.scopes, i)->Some_0[c.scopes[i as int].index as int] matches SceneNode::Control(
            crate::node::SceneNodeControl::If { cond, else_ifs, else_content, .. },
        ) && select(cond, else_ifs@, else_content is Some, bind(c.vars, choice_key(), c.scopes[i as int].choice))
            == Ok::<Option<crate::cursor::Branch>, NovelError>(Some(b)),
        crate::novel::arm_body(
            frame_body(scene_of(scenes, c.scene)->Some_0, c.scopes, i)->Some_0[c.scopes[i as int].index as int],
            b,
        ) matches Some(a) && a.len() > 0 && a[0] is User,
    ensures
        ({
            let body = frame_body(scene_of(scenes, c.scene)->Some_0, c.scopes, i)->Some_0;
            let s = c.scopes[i as int];
            let a = crate::novel::arm_body(body[s.index as int], b)->Some_0;
            next_spec(scenes, c) == (
                Ok::<Option<UserView>, NovelError>(Some(a[0]->User_0@)),
                CursorView {
                    vars: bind(c.vars, choice_key(), s.choice),
                    scopes: c.scopes.update(i as int, Scope { branch: Some(b), ..s }).push(
                        Scope { index: 1, ..crate::cursor::fresh_scope() },
                    ),
                    ..c
                },
            )
        }),
{
    lemma_frame_body_fits(scene_of(scenes, c.scene)->Some_0, c.scopes, i);
    let root = scene_of(scenes, c.scene)->Some_0;
    let body = frame_body(root, c.scopes, i)->Some_0;
    let s = c.scopes[i as int];
    let a = crate::novel::arm_body(body[s.index as int], b)->Some_0;
    let c1 = CursorView { vars: bind(c.vars, choice_key(), s.choice), ..c };
    let c2 = CursorView {
        scopes: c1.scopes.update(i as int, Scope { branch: Some(b), ..s }).push(
            crate::cursor::fresh_scope(),
        ),
        ..c1
    };
    let c3 = crate::novel::with_frame(c2, i + 1, Scope { index: 1, ..crate::cursor::fresh_scope() });
    assert(c2.scopes[(i + 1) as int] == crate::cursor::fresh_scope());
    assert(walk(a, i + 1, c2) == (Walk::Emit(a[0]->User_0@), c3));
    assert(walk(body, i, c2) == walk(a, i + 1, c2));
    assert(walk(body, i, c) == walk(body, i, c2));
    lemma_walk_reaches(root, c, 0, i);
    assert(c3.scopes =~= c.scopes.update(i as int, Scope { branch: Some(b), ..s }).push(
        Scope { index: 1, ..crate::cursor::fresh_scope() },
    ));
}

/// When no arm of the conditional at the innermost frame is entered, `next`
/// goes past it to the node that follows it.
pub proof fn lemma_next_skips_unselected(
    scenes: Seq<(Seq<char>, Seq<SceneNode>)>,
    c: CursorView,
    i: nat,
)
    requires
        scene_of(scenes, c.scene) is Some,
        i + 1 == c.scopes.len(),
        frame_body(scene_of(scenes, c.scene)->Some_0, c.scopes, i) is Some,
        scene_of(scenes, c.scene)->Some_0.len() <= usize::MAX,
        c.scopes[i as int].index + 1 < frame_body(scene_of(scenes, c.scene)->Some_0, c.scopes, i)->Some_0.len(),
        frame_body(scene_of(scenes, c.scene)->Some_0, c.scopes, i)->Some_0[c.scopes[i as int].index as int] matches SceneNode::Control(
            crate::node::SceneNodeControl::If { cond, else_ifs, else_content, .. },
        ) && select(cond, else_ifs@, else_content is Some, bind(c.vars, choice_key(), c.scopes[i as int].choice))
            == Ok::<Option<crate::cursor::Branch>, NovelError>(None),
        frame_body(scene_of(scenes, c.scene)->Some_0, c.scopes, i)->Some_0[c.scopes[i as int].index + 1] is User,
    ensures
        next_spec(scenes, c).0 == Ok::<Option<UserView>, NovelError>(
            Some(
                frame_body(scene_of(scenes, c.scene)->Some_0, c.scopes, i)->Some_0[c.scopes[i as int].index + 1]->User_0@,
            ),
        ),
{
    lemma_frame_body_fits(scene_of(scenes, c.scene)->Some_0, c.scopes, i);
    let root = scene_of(scenes, c.scene)->Some_0;
    let body = frame_body(root, c.scopes, i)->Some_0;
    let s = c.scopes[i as int];
    let c1 = CursorView { vars: bind(c.vars, choice_key(), s.choice), ..c };
    let c2 = crate::novel::with_frame(c1, i, Scope { index: (s.index + 1) as usize, ..s });
    assert(c2.scopes[i as int].index == s.index + 1);
    assert(walk(body, i, c2).0 == Walk::Emit(body[s.index + 1]->User_0@));
    assert(walk(body, i, c) == walk(body, i, c2));
    lemma_walk_reaches(root, c, 0, i);
}

/// A jump reached at the innermost frame, at any depth, drops every
/// enclosing frame and starts the target scene from its top, also when the
/// target is the scene already playing; the variables stay.
pub proof fn lemma_next_jumps_from_any_depth(
    scenes: Seq<(Seq<char>, Seq<SceneNode>)>,
    c: CursorView,
    i: nat,
)
    requires
        scene_of(scenes, c.scene) is Some,
        i + 1 == c.scopes.len(),
        frame_body(scene_of(scenes, c.scene)->Some_0, c.scopes, i) is Some,
        scene_of(scenes, c.scene)->Some_0.len() <= usize::MAX,
        c.scopes[i as int].index < frame_body(scene_of(scenes, c.scene)->Some_0, c.scopes, i)->Some_0.len(),
        frame_body(scene_of(scenes, c.scene)->Some_0, c.scopes, i)->Some_0[c.scopes[i as int].index as int] matches SceneNode::Control(
            crate::node::SceneNodeControl::Jump(t),
        ) && scene_of(scenes, t@) matches Some(target) && target.len() > 0 && target[0] is User,
    ensures
        ({
            let body = frame_body(scene_of(scenes, c.scene)->Some_0, c.scopes, i)->Some_0;
            let t = body[c.scopes[i as int].index as int]->Control_0->Jump_0@;
            let target = scene_of(scenes, t)->Some_0;
            next_spec(scenes, c) == (
                Ok::<Option<UserView>, NovelError>(Some(target[0]->User_0@)),
                CursorView {
                    scene: t,
                    vars: c.vars,
                    scopes: seq![Scope { index: 1, ..crate::cursor::fresh_scope() }],
                },
            )
        }),
{
    lemma_frame_body_fits(scene_of(scenes, c.scene)->Some_0, c.scopes, i);
    let root = scene_of(scenes, c.scene)->Some_0;
    let body = frame_body(root, c.scopes, i)->Some_0;
    let t = body[c.scopes[i as int].index as int]->Control_0->Jump_0@;
    assert(walk(body, i, c) == (Walk::Jump(t), c));
    lemma_walk_reaches(root, c, 0, i);
    let start = crate::cursor::start_view(t, c.vars);
    let target = scene_of(scenes, t)->Some_0;
    let done = crate::novel::with_frame(start, 0, Scope { index: 1, ..crate::cursor::fresh_scope() });
    assert(walk(target, 0, start) == (Walk::Emit(target[0]->User_0@), done));
    assert(done.scopes =~= seq![Scope { index: 1, ..crate::cursor::fresh_scope() }]);
    assert(advance(scenes, start, (MAX_JUMPS - 1) as nat) == (
        Ok::<Option<UserView>, NovelError>(Some(target[0]->User_0@)),
        done,
    ));
}

proof fn lemma_walk_ignores_finished_choice(
    root: Seq<SceneNode>,
    c: CursorView,
    j: nat,
    i: nat,
    other: i32,
)
    requires
        j <= i,
        i + 2 == c.scopes.len(),
        frame_body(root, c.scopes, i + 1) matches Some(arm) && c.scopes[(i + 1) as int].index
            >= arm.len(),
    ensures
        walk(frame_body(root, c.scopes, j)->Some_0, j, c) == walk(
            frame_body(root, c.scopes, j)->Some_0,
            j,
            CursorView {
                scopes: c.scopes.update((i + 1) as int, Scope { choice: other, ..c.scopes[(i + 1) as int] }),
                ..c
            },
        ),
    decreases i - j,
{
    let c2 = CursorView {
        scopes: c.scopes.update((i + 1) as int, Scope { choice: other, ..c.scopes[(i + 1) as int] }),
        ..c
    };
    lemma_frame_body_prefix(root, c.scopes, j, i + 1);
    lemma_frame_body_prefix(root, c.scopes, (j + 1) as nat, i + 1);
    if j == i {
        lemma_finished_frame_choice_invisible(frame_body(root, c.scopes, i)->Some_0, i, c, other);
    } else {
        lemma_walk_ignores_finished_choice(root, c, (j + 1) as nat, i, other);
        lemma_frame_body_agree(root, c.scopes, c2.scopes, (j + 1) as nat);
        assert(c2.scopes[j as int] == c.scopes[j as int]);
        assert(c2.scopes.take(j as int) =~= c.scopes.take(j as int));
    }
}

/// A choice recorded in a nested frame that has run out of nodes is not seen
/// by anything `next` does at the enclosing levels: the outcome is the same
/// whatever that choice was.
pub proof fn lemma_next_ignores_finished_choice(
    scenes: Seq<(Seq<char>, Seq<SceneNode>)>,
    c: CursorView,
    i: nat,
    other: i32,
)
    requires
        scene_of(scenes, c.scene) is Some,
        i + 2 == c.scopes.len(),
        frame_body(scene_of(scenes, c.scene)->Some_0, c.scopes, i + 1) matches Some(arm)
            && c.scopes[(i + 1) as int].index >= arm.len(),
    ensures
        ({
            let c2 = CursorView {
                scopes: c.scopes.update((i + 1) as int, Scope { choice: other, ..c.scopes[(i + 1) as int] }),
                ..c
            };
            &&& next_spec(scenes, c).0 == next_spec(scenes, c2).0
            &&& next_spec(scenes, c).0 is Ok ==> next_spec(scenes, c).1 == next_spec(scenes, c2).1
        }),
{
    let root = scene_of(scenes, c.scene)->Some_0;
    lemma_walk_ignores_finished_choice(root, c, 0, i, other);
}

/// The cursor after `n` calls of `next`.
pub open spec fn after_calls(scenes: Seq<(Seq<char>, Seq<SceneNode>)>, c: CursorView, n: nat) -> CursorView
    decreases n,
{
    if n == 0 {
        c
    } else {
        next_spec(scenes, after_calls(scenes, c, (n - 1) as nat)).1
    }
}

/// From the top of a scene made of host-visible nodes only, the call after
/// `n` calls hands out the `n`-th node while there is one, and none after
/// the last.
pub proof fn lemma_flat_scene_sequence(
    scenes: Seq<(Seq<char>, Seq<SceneNode>)>,
    name: Seq<char>,
    vars: Seq<(Seq<char>, i32)>,
    n: nat,
)
    requires
        scene_of(scenes, name) is Some,
        forall|j: int|
            0 <= j < scene_of(scenes, name)->Some_0.len() ==> #[trigger] scene_of(scenes, name)->Some_0[j] is User,
        scene_of(scenes, name)->Some_0.len() <= usize::MAX,
    ensures
        ({
            let root = scene_of(scenes, name)->Some_0;
            let c = after_calls(scenes, crate::cursor::start_view(name, vars), n);
            &&& c == (CursorView {
                scene: name,
                vars,
                scopes: seq![Scope { index: (if n < root.len() { n } else { root.len() }) as usize, ..crate::cursor::fresh_scope() }],
            })
            &&& next_spec(scenes, c).0 == if n < root.len() {
                Ok::<Option<UserView>, NovelError>(Some(root[n as int]->User_0@))
            } else {
                Ok::<Option<UserView>, NovelError>(None)
            }
        }),
    decreases n,
{
    let root = scene_of(scenes, name)->Some_0;
    if n > 0 {
        lemma_flat_scene_sequence(scenes, name, vars, (n - 1) as nat);
        let prev = after_calls(scenes, crate::cursor::start_view(name, vars), (n - 1) as nat);
        lemma_flat_scene_in_order(scenes, prev);
    }
    let c = after_calls(scenes, crate::cursor::start_view(name, vars), n);
    lemma_flat_scene_in_order(scenes, c);
}

/// In a `Novel`, from the top of a scene made of host-visible nodes only, the
/// call after `n` calls of `next` hands out the `n`-th node while there is
/// one, and none after the last.
pub proof fn lemma_flat_novel_in_order(
    novel: crate::novel::Novel,
    name: Seq<char>,
    vars: Seq<(Seq<char>, i32)>,
    n: nat,
)
    requires
        scene_of(novel@, name) is Some,
        forall|j: int|
            0 <= j < scene_of(novel@, name)->Some_0.len() ==> #[trigger] scene_of(novel@, name)->Some_0[j] is User,
    ensures
        ({
            let root = scene_of(novel@, name)->Some_0;
            let c = after_calls(novel@, crate::cursor::start_view(name, vars), n);
            next_spec(novel@, c).0 == if n < root.len() {
                Ok::<Option<UserView>, NovelError>(Some(root[n as int]->User_0@))
            } else {
                Ok::<Option<UserView>, NovelError>(None)
            }
        }),
{
    crate::novel::lemma_scene_fits(novel, name);
    lemma_flat_scene_sequence(novel@, name, vars, n);
}

} // verus!
