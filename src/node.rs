use vstd::prelude::*;

use crate::condition::Condition;

verus! {

/// Narrative content shown to the player.
#[derive(Debug, Clone, PartialEq)]
pub enum SceneNodeData {
    Text { speaker: Option<String>, content: String },
    Choice(Vec<String>),
}

/// World-mutation directives for the host to apply.
#[derive(Debug, Clone, PartialEq)]
pub enum SceneNodeLoad {
    Character { character: String, expression: Option<String>, placement: Option<String> },
    Background { name: String },
    PlaySound { name: String, channel: Option<String> },
    RemoveCharacter { name: String },
}

/// A node that the walker hands to the host.
#[derive(Debug, Clone, PartialEq)]
pub enum SceneNodeUser {
    Data(SceneNodeData),
    Load(SceneNodeLoad),
}

/// A flow directive that the walker resolves itself.
#[derive(Debug, PartialEq)]
pub enum SceneNodeControl {
    If {
        cond: Condition,
        content: Vec<SceneNode>,
        else_ifs: Vec<(Condition, Vec<SceneNode>)>,
        else_content: Option<Vec<SceneNode>>,
    },
    Jump(String),
}

#[derive(Debug, PartialEq)]
pub enum SceneNode {
    User(SceneNodeUser),
    Control(SceneNodeControl),
}

/// A node of a story graph: its root, a host-visible node, or a branch taken
/// under a condition.
#[derive(Debug)]
pub enum GraphNode<'a> {
    Root,
    Node { node: &'a SceneNodeUser },
    Branch(Condition),
}

fn clone_node(n: &SceneNode) -> (r: SceneNode)
    decreases n, 1nat,
{
    match n {
        SceneNode::User(u) => SceneNode::User(u.clone()),
        SceneNode::Control(c) => SceneNode::Control(clone_control(c)),
    }
}

fn clone_control(c: &SceneNodeControl) -> (r: SceneNodeControl)
    decreases c, 1nat,
{
    match c {
        SceneNodeControl::Jump(t) => SceneNodeControl::Jump(t.clone()),
        SceneNodeControl::If { cond, content, else_ifs, else_content } => {
            let else_copy = match else_content {
                Some(b) => Some(clone_nodes(b)),
                None => None,
            };
            SceneNodeControl::If {
                cond: cond.clone(),
                content: clone_nodes(content),
                else_ifs: clone_arms(else_ifs),
                else_content: else_copy,
            }
        },
    }
}

fn clone_nodes(v: &Vec<SceneNode>) -> (r: Vec<SceneNode>)
    decreases v, 0nat,
{
    let mut r: Vec<SceneNode> = Vec::new();
    let mut i: usize = 0;
    while i < v.len()
        decreases v.len() - i,
    {
        assert(decreases_to!(v => v[i as int]));
        r.push(clone_node(&v[i]));
        i = i + 1;
    }
    r
}

fn clone_arms(v: &Vec<(Condition, Vec<SceneNode>)>) -> (r: Vec<(Condition, Vec<SceneNode>)>)
    decreases v, 0nat,
{
    let mut r: Vec<(Condition, Vec<SceneNode>)> = Vec::new();
    let mut i: usize = 0;
    while i < v.len()
        decreases v.len() - i,
    {
        assert(decreases_to!(v => v[i as int]));
        assert(decreases_to!(v[i as int] => v[i as int].1));
        r.push((v[i].0.clone(), clone_nodes(&v[i].1)));
        i = i + 1;
    }
    r
}

impl Clone for SceneNode {
    fn clone(&self) -> Self {
        clone_node(self)
    }
}

impl Clone for SceneNodeControl {
    fn clone(&self) -> Self {
        clone_control(self)
    }
}

/// Mathematical form of a host-visible node: strings as character sequences.
pub enum UserView {
    Text { speaker: Option<Seq<char>>, content: Seq<char> },
    Choice(Seq<Seq<char>>),
    Character { character: Seq<char>, expression: Option<Seq<char>>, placement: Option<Seq<char>> },
    Background { name: Seq<char> },
    PlaySound { name: Seq<char>, channel: Option<Seq<char>> },
    RemoveCharacter { name: Seq<char> },
}

pub open spec fn opt_view(o: Option<String>) -> Option<Seq<char>> {
    match o {
        Some(s) => Some(s@),
        None => None,
    }
}

pub open spec fn strings_view(v: Seq<String>) -> Seq<Seq<char>> {
    v.map_values(|s: String| s@)
}

impl View for SceneNodeUser {
    type V = UserView;

    open spec fn view(&self) -> UserView {
        match self {
            SceneNodeUser::Data(SceneNodeData::Text { speaker, content }) => UserView::Text {
                speaker: opt_view(*speaker),
                content: content@,
            },
            SceneNodeUser::Data(SceneNodeData::Choice(options)) => UserView::Choice(
                strings_view(options@),
            ),
            SceneNodeUser::Load(SceneNodeLoad::Character { character, expression, placement }) =>
            UserView::Character {
                character: character@,
                expression: opt_view(*expression),
                placement: opt_view(*placement),
            },
            SceneNodeUser::Load(SceneNodeLoad::Background { name }) => UserView::Background {
                name: name@,
            },
            SceneNodeUser::Load(SceneNodeLoad::PlaySound { name, channel }) => UserView::PlaySound {
                name: name@,
                channel: opt_view(*channel),
            },
            SceneNodeUser::Load(SceneNodeLoad::RemoveCharacter { name }) =>
            UserView::RemoveCharacter { name: name@ },
        }
    }
}

fn copy_opt(o: &Option<String>) -> (r: Option<String>)
    ensures
        opt_view(r) == opt_view(*o),
{
    match o {
        Some(s) => Some(s.clone()),
        None => None,
    }
}

fn copy_strings(v: &Vec<String>) -> (r: Vec<String>)
    ensures
        strings_view(r@) == strings_view(v@),
{
    let mut r: Vec<String> = Vec::new();
    let mut i: usize = 0;
    while i < v.len()
        invariant
            i <= v.len(),
            r@.len() == i,
            forall|j: int| 0 <= j < i ==> r@[j]@ == v@[j]@,
        decreases v.len() - i,
    {
        r.push(v[i].clone());
        i = i + 1;
    }
    assert(strings_view(r@) =~= strings_view(v@));
    r
}

impl SceneNodeUser {
    /// A copy of this node with the same contents.
    pub fn duplicate(&self) -> (r: SceneNodeUser)
        ensures
            r@ == self@,
    {
        match self {
            SceneNodeUser::Data(SceneNodeData::Text { speaker, content }) => SceneNodeUser::Data(
                SceneNodeData::Text { speaker: copy_opt(speaker), content: content.clone() },
            ),
            SceneNodeUser::Data(SceneNodeData::Choice(options)) => SceneNodeUser::Data(
                SceneNodeData::Choice(copy_strings(options)),
            ),
            SceneNodeUser::Load(SceneNodeLoad::Character { character, expression, placement }) =>
            SceneNodeUser::Load(
                SceneNodeLoad::Character {
                    character: character.clone(),
                    expression: copy_opt(expression),
                    placement: copy_opt(placement),
                },
            ),
            SceneNodeUser::Load(SceneNodeLoad::Background { name }) => SceneNodeUser::Load(
                SceneNodeLoad::Background { name: name.clone() },
            ),
            SceneNodeUser::Load(SceneNodeLoad::PlaySound { name, channel }) => SceneNodeUser::Load(
                SceneNodeLoad::PlaySound { name: name.clone(), channel: copy_opt(channel) },
            ),
            SceneNodeUser::Load(SceneNodeLoad::RemoveCharacter { name }) => SceneNodeUser::Load(
                SceneNodeLoad::RemoveCharacter { name: name.clone() },
            ),
        }
    }
}

} // verus!
