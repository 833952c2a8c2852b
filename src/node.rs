//! The node type of a projected directory tree and its mathematical model.
use vstd::prelude::*;

verus! {

/// One filesystem entry in a projected view.
#[derive(Debug)]
pub struct FileTreeNode {
    pub name: String,
    pub path: String,
    pub is_dir: bool,
    pub extension: Option<String>,
    pub children: Option<Vec<FileTreeNode>>,
}

/// What a node stands for: its strings as character sequences, its children as
/// a sequence of models.
pub ghost struct NodeModel {
    pub name: Seq<char>,
    pub path: Seq<char>,
    pub is_dir: bool,
    pub extension: Option<Seq<char>>,
    pub children: Option<Seq<NodeModel>>,
}

pub open spec fn opt_view(o: Option<String>) -> Option<Seq<char>> {
    match o {
        Some(s) => Some(s@),
        None => None,
    }
}

impl FileTreeNode {
    pub open spec fn model(&self) -> NodeModel
        decreases self,
    {
        NodeModel {
            name: self.name@,
            path: self.path@,
            is_dir: self.is_dir,
            extension: opt_view(self.extension),
            children: match self.children {
                Some(v) => Some(models(v@)),
                None => None,
            },
        }
    }
}

/// The models of a sequence of nodes, in order.
pub open spec fn models(s: Seq<FileTreeNode>) -> Seq<NodeModel>
    decreases s,
{
    if s.len() == 0 {
        Seq::empty()
    } else {
        models(s.drop_last()).push(s.last().model())
    }
}

pub proof fn lemma_models(s: Seq<FileTreeNode>)
    ensures
        models(s).len() == s.len(),
        forall|i: int| 0 <= i < s.len() ==> #[trigger] models(s)[i] == s[i].model(),
    decreases s.len(),
{
    if s.len() > 0 {
        lemma_models(s.drop_last());
    }
}

} // verus!
