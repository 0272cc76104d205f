//! A resumable interpreter for a line-oriented branching-narrative script
//! language: script text is compiled into a tree of scene nodes, and a cursor
//! walks that tree one host-visible event at a time.

pub mod condition;
pub mod cursor;
pub mod laws;
pub mod node;
pub mod text;
pub mod novel;
pub mod script;
pub mod tree;
pub mod variables;

pub use condition::{CompareableData, Comparison, Condition, NovelError, Predicate};
pub use cursor::{Branch, NovelState, SavedState, Scope};
pub use node::{SceneNode, SceneNodeControl, SceneNodeData, SceneNodeLoad, SceneNodeUser};
pub use novel::{Novel, ScriptError, MAX_JUMPS};
pub use script::{parse_line, parse_script, LineError};
pub use tree::{build_tree, BuildError, Statement};
