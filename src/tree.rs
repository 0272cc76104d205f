use vstd::prelude::*;

use std::collections::VecDeque;

use crate::condition::{CondView, Condition};
use crate::node::{SceneNode, SceneNodeControl, SceneNodeUser, UserView};

verus! {

/// One line of script after parsing, with its block markers still flat.
#[derive(Debug, PartialEq)]
pub enum Statement {
    If(Condition),
    ElseIf(Condition),
    Else,
    End,
    Jump(String),
    Node(SceneNodeUser),
}

/// Why a statement stream does not nest into a tree.
#[derive(Debug, Clone, Copy, PartialEq, Eq, Structural)]
pub enum BuildError {
    /// A conditional is still open when the statements run out.
    Unterminated,
    /// `elseif`, `else` or `end` stands outside any conditional.
    Unmatched,
    /// An arm follows the `else` arm of its conditional.
    ArmAfterElse,
}

pub enum StmtView {
    If(CondView),
    ElseIf(CondView),
    Else,
    End,
    Jump(Seq<char>),
    Node(UserView),
}

impl View for Statement {
    type V = StmtView;

    open spec fn view(&self) -> StmtView {
        match self {
            Statement::If(c) => StmtView::If(c@),
            Statement::ElseIf(c) => StmtView::ElseIf(c@),
            Statement::Else => StmtView::Else,
            Statement::End => StmtView::End,
            Statement::Jump(t) => StmtView::Jump(t@),
            Statement::Node(u) => StmtView::Node(u@),
        }
    }
}

pub open spec fn stmts_view(s: Seq<Statement>) -> Seq<StmtView> {
    s.map_values(|x: Statement| x@)
}

/// The shape of a scene tree, each body as a sequence.
pub enum NodeView {
    User(UserView),
    Jump(Seq<char>),
    If {
        cond: CondView,
        body: Seq<NodeView>,
        arms: Seq<(CondView, Seq<NodeView>)>,
        else_body: Option<Seq<NodeView>>,
    },
}

pub open spec fn node_view(n: SceneNode) -> NodeView
    decreases n, 0nat,
{
    match n {
        SceneNode::User(u) => NodeView::User(u@),
        SceneNode::Control(SceneNodeControl::Jump(t)) => NodeView::Jump(t@),
        SceneNode::Control(SceneNodeControl::If { cond, content, else_ifs, else_content }) => {
            NodeView::If {
                cond: cond@,
                body: nodes_view(content@),
                arms: arms_view(else_ifs@),
                else_body: match else_content {
                    Some(c) => Some(nodes_view(c@)),
                    None => None,
                },
            }
        },
    }
}

pub open spec fn nodes_view(s: Seq<SceneNode>) -> Seq<NodeView>
    decreases s, 0nat,
{
    if s.len() == 0 {
        Seq::empty()
    } else {
        nodes_view(s.drop_last()).push(node_view(s.last()))
    }
}

pub open spec fn arms_view(s: Seq<(Condition, Vec<SceneNode>)>) -> Seq<(CondView, Seq<NodeView>)>
    decreases s, 0nat,
{
    if s.len() == 0 {
        Seq::empty()
    } else {
        arms_view(s.drop_last()).push((s.last().0@, nodes_view(s.last().1@)))
    }
}

pub open spec fn closes(s: StmtView) -> bool {
    s is ElseIf || s is Else || s is End
}

/// A conditional whose arms are still being read.
pub struct OpenIf {
    pub cond: CondView,
    pub body: Seq<NodeView>,
    pub arms: Seq<(CondView, Seq<NodeView>)>,
    pub else_body: Option<Seq<NodeView>>,
}

pub open spec fn close(o: OpenIf) -> NodeView {
    NodeView::If { cond: o.cond, body: o.body, arms: o.arms, else_body: o.else_body }
}

pub open spec fn prefixed(
    p: Seq<NodeView>,
    x: (Result<Seq<NodeView>, BuildError>, Seq<StmtView>),
) -> (Result<Seq<NodeView>, BuildError>, Seq<StmtView>) {
    (
        match x.0 {
            Ok(t) => Ok(p + t),
            Err(e) => Err(e),
        },
        x.1,
    )
}

/// Reads nodes up to the end of the statements or up to an `elseif`,
/// `else` or `end`, which is left unread; returns them with what is left.
pub open spec fn parse_block(s: Seq<StmtView>) -> (Result<Seq<NodeView>, BuildError>, Seq<StmtView>)
    decreases s.len(), 1nat,
{
    if s.len() == 0 || closes(s[0]) {
        (Ok(Seq::empty()), s)
    } else {
        let (first, rest) = match s[0] {
            StmtView::If(c) => parse_conditional(c, s.drop_first()),
            StmtView::Jump(t) => (Ok(NodeView::Jump(t)), s.drop_first()),
            StmtView::Node(u) => (Ok(NodeView::User(u)), s.drop_first()),
            _ => (Err(BuildError::Unmatched), s.drop_first()),
        };
        match first {
            Err(e) => (Err(e), rest),
            Ok(n) => if rest.len() < s.len() {
                prefixed(seq![n], parse_block(rest))
            } else {
                (Err(BuildError::Unterminated), rest)
            },
        }
    }
}

/// Reads a conditional whose `if` line, with condition `c`, has been read.
pub open spec fn parse_conditional(c: CondView, s: Seq<StmtView>) -> (Result<NodeView, BuildError>, Seq<
    StmtView,
>)
    decreases s.len(), 2nat,
{
    let (body, rest) = parse_block(s);
    match body {
        Err(e) => (Err(e), rest),
        Ok(b) => if rest.len() <= s.len() {
            parse_arms(rest, OpenIf { cond: c, body: b, arms: Seq::empty(), else_body: None })
        } else {
            (Err(BuildError::Unterminated), rest)
        },
    }
}

/// Reads the `elseif` and `else` arms of a conditional up to its `end`.
pub open spec fn parse_arms(s: Seq<StmtView>, o: OpenIf) -> (Result<NodeView, BuildError>, Seq<StmtView>)
    decreases s.len(), 0nat,
{
    if s.len() == 0 {
        (Err(BuildError::Unterminated), s)
    } else {
        match s[0] {
            StmtView::End => (Ok(close(o)), s.drop_first()),
            StmtView::ElseIf(c) => if o.else_body is Some {
                (Err(BuildError::ArmAfterElse), s.drop_first())
            } else {
                let (b, rest) = parse_block(s.drop_first());
                match b {
                    Err(e) => (Err(e), rest),
                    Ok(b) => if rest.len() < s.len() {
                        parse_arms(rest, OpenIf { arms: o.arms.push((c, b)), ..o })
                    } else {
                        (Err(BuildError::Unterminated), rest)
                    },
                }
            },
            StmtView::Else => if o.else_body is Some {
                (Err(BuildError::ArmAfterElse), s.drop_first())
            } else {
                let (b, rest) = parse_block(s.drop_first());
                match b {
                    Err(e) => (Err(e), rest),
                    Ok(b) => if rest.len() < s.len() {
                        parse_arms(rest, OpenIf { else_body: Some(b), ..o })
                    } else {
                        (Err(BuildError::Unterminated), rest)
                    },
                }
            },
            _ => (Err(BuildError::Unterminated), s.drop_first()),
        }
    }
}

/// The tree that a whole statement stream nests into.
pub open spec fn tree_spec(s: Seq<StmtView>) -> Result<Seq<NodeView>, BuildError> {
    let (r, rest) = parse_block(s);
    match r {
        Err(e) => Err(e),
        Ok(t) => if rest.len() == 0 {
            Ok(t)
        } else {
            Err(BuildError::Unmatched)
        },
    }
}

pub open spec fn nodes_result(r: Result<Vec<SceneNode>, BuildError>) -> Result<Seq<NodeView>, BuildError> {
    match r {
        Ok(v) => Ok(nodes_view(v@)),
        Err(e) => Err(e),
    }
}

pub open spec fn node_result(r: Result<SceneNode, BuildError>) -> Result<NodeView, BuildError> {
    match r {
        Ok(n) => Ok(node_view(n)),
        Err(e) => Err(e),
    }
}

pub open spec fn opt_nodes_view(o: Option<Vec<SceneNode>>) -> Option<Seq<NodeView>> {
    match o {
        Some(v) => Some(nodes_view(v@)),
        None => None,
    }
}

proof fn lemma_nodes_push(s: Seq<SceneNode>, n: SceneNode)
    ensures
        nodes_view(s.push(n)) == nodes_view(s).push(node_view(n)),
{
    assert(s.push(n).drop_last() =~= s);
}

proof fn lemma_arms_push(s: Seq<(Condition, Vec<SceneNode>)>, a: (Condition, Vec<SceneNode>))
    ensures
        arms_view(s.push(a)) == arms_view(s).push((a.0@, nodes_view(a.1@))),
{
    assert(s.push(a).drop_last() =~= s);
}

fn read_block(q: &mut VecDeque<Statement>) -> (r: Result<Vec<SceneNode>, BuildError>)
    ensures
        (nodes_result(r), stmts_view(final(q)@)) == parse_block(stmts_view(old(q)@)),
        final(q)@.len() <= old(q)@.len(),
    decreases old(q)@.len(), 1nat,
{
    let mut out: Vec<SceneNode> = Vec::new();
    assert(nodes_view(out@) =~= Seq::<NodeView>::empty());
    assert(prefixed(Seq::empty(), parse_block(stmts_view(q@))) =~= parse_block(stmts_view(q@)));
    loop
        invariant
            parse_block(stmts_view(old(q)@)) == prefixed(nodes_view(out@), parse_block(stmts_view(q@))),
            q@.len() <= old(q)@.len(),
        decreases q@.len(),
    {
        if q.len() == 0 {
            assert(nodes_view(out@) + Seq::<NodeView>::empty() =~= nodes_view(out@));
            return Ok(out);
        }
        let stops = match &q[0] {
            Statement::ElseIf(_) | Statement::Else | Statement::End => true,
            _ => false,
        };
        if stops {
            assert(nodes_view(out@) + Seq::<NodeView>::empty() =~= nodes_view(out@));
            return Ok(out);
        }
        let ghost before = q@;
        let st = q.pop_front().unwrap();
        assert(q@ =~= before.drop_first());
        assert(stmts_view(q@) =~= stmts_view(before).drop_first());
        assert(stmts_view(before)[0] == st@);
        let node = match st {
            Statement::If(c) => match read_conditional(c, q) {
                Ok(n) => n,
                Err(e) => {
                    return Err(e);
                },
            },
            Statement::Jump(t) => SceneNode::Control(SceneNodeControl::Jump(t)),
            Statement::Node(u) => SceneNode::User(u),
            _ => {
                return Err(BuildError::Unmatched);
            },
        };
        proof {
            lemma_nodes_push(out@, node);
            let x = parse_block(stmts_view(q@));
            let p = nodes_view(out@);
            match x.0 {
                Ok(t) => {
                    assert(p + (seq![node_view(node)] + t) =~= p.push(node_view(node)) + t);
                },
                Err(e) => {},
            }
        }
        out.push(node);
    }
}

fn read_conditional(c: Condition, q: &mut VecDeque<Statement>) -> (r: Result<SceneNode, BuildError>)
    ensures
        (node_result(r), stmts_view(final(q)@)) == parse_conditional(c@, stmts_view(old(q)@)),
        final(q)@.len() <= old(q)@.len(),
    decreases old(q)@.len(), 2nat,
{
    let body = match read_block(q) {
        Ok(b) => b,
        Err(e) => {
            return Err(e);
        },
    };
    let arms: Vec<(Condition, Vec<SceneNode>)> = Vec::new();
    assert(arms_view(arms@) =~= Seq::<(CondView, Seq<NodeView>)>::empty());
    read_arms(c, body, arms, None, q)
}

fn read_arms(
    cond: Condition,
    body: Vec<SceneNode>,
    arms_in: Vec<(Condition, Vec<SceneNode>)>,
    else_in: Option<Vec<SceneNode>>,
    q: &mut VecDeque<Statement>,
) -> (r: Result<SceneNode, BuildError>)
    ensures
        (node_result(r), stmts_view(final(q)@)) == parse_arms(
            stmts_view(old(q)@),
            OpenIf {
                cond: cond@,
                body: nodes_view(body@),
                arms: arms_view(arms_in@),
                else_body: opt_nodes_view(else_in),
            },
        ),
        final(q)@.len() <= old(q)@.len(),
    decreases old(q)@.len(), 0nat,
{
    let mut arms = arms_in;
    let mut else_body = else_in;
    loop
        invariant
            parse_arms(
                stmts_view(old(q)@),
                OpenIf {
                    cond: cond@,
                    body: nodes_view(body@),
                    arms: arms_view(arms_in@),
                    else_body: opt_nodes_view(else_in),
                },
            ) == parse_arms(
                stmts_view(q@),
                OpenIf {
                    cond: cond@,
                    body: nodes_view(body@),
                    arms: arms_view(arms@),
                    else_body: opt_nodes_view(else_body),
                },
            ),
            q@.len() <= old(q)@.len(),
        decreases q@.len(),
    {
        if q.len() == 0 {
            return Err(BuildError::Unterminated);
        }
        let ghost before = q@;
        let st = q.pop_front().unwrap();
        assert(q@ =~= before.drop_first());
        assert(stmts_view(q@) =~= stmts_view(before).drop_first());
        assert(stmts_view(before)[0] == st@);
        match st {
            Statement::End => {
                return Ok(
                    SceneNode::Control(
                        SceneNodeControl::If { cond, content: body, else_ifs: arms, else_content: else_body },
                    ),
                );
            },
            Statement::ElseIf(c) => {
                if else_body.is_some() {
                    return Err(BuildError::ArmAfterElse);
                }
                let b = match read_block(q) {
                    Ok(b) => b,
                    Err(e) => {
                        return Err(e);
                    },
                };
                proof {
                    lemma_arms_push(arms@, (c, b));
                }
                arms.push((c, b));
            },
            Statement::Else => {
                if else_body.is_some() {
                    return Err(BuildError::ArmAfterElse);
                }
                let b = match read_block(q) {
                    Ok(b) => b,
                    Err(e) => {
                        return Err(e);
                    },
                };
                else_body = Some(b);
            },
            _ => {
                return Err(BuildError::Unterminated);
            },
        }
    }
}

/// Nests a flat statement stream into a scene tree.
pub fn build_tree(statements: Vec<Statement>) -> (r: Result<Vec<SceneNode>, BuildError>)
    ensures
        nodes_result(r) == tree_spec(stmts_view(statements@)),
{
    let ghost all = statements@;
    let mut statements = statements;
    let mut q: VecDeque<Statement> = VecDeque::new();
    while statements.len() > 0
        invariant
            statements@ + q@ == all,
        decreases statements.len(),
    {
        let ghost before = statements@;
        let ghost qb = q@;
        let st = statements.pop().unwrap();
        q.push_front(st);
        assert(statements@ + q@ =~= before + qb);
    }
    assert(q@ =~= all);
    let r = read_block(&mut q);
    assert(stmts_view(q@).len() == q@.len());
    match r {
        Err(e) => Err(e),
        Ok(t) => if q.len() == 0 {
            Ok(t)
        } else {
            Err(BuildError::Unmatched)
        },
    }
}

} // verus!
