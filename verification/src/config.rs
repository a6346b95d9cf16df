//! The plain-value form of a configuration node tree: exactly the parts of
//! a document node that the preset grammar reads — the node's name, the
//! handful of properties the grammar knows, and the child nodes.

use vstd::prelude::*;

verus! {

broadcast use vstd::std_specs::vec::axiom_vec_index_decreases;

/// One configuration node. A property that is absent, or whose value has
/// the wrong kind (a string where an integer is needed, or the reverse),
/// is `None` here; the grammar treats both alike.
#[derive(Debug)]
pub struct ConfigNode {
    /// The node's own name (`session`, `window`, `pane`, `split`, ...).
    pub name: String,
    /// The `name` property, when present with a string value.
    pub prop_name: Option<String>,
    /// The `cwd` property, when present with a string value.
    pub prop_cwd: Option<String>,
    /// The `command` property, when present with a string value.
    pub prop_command: Option<String>,
    /// The `direction` property, when present with a string value.
    pub prop_direction: Option<String>,
    /// The `size` property, when present with an integer value.
    pub prop_size: Option<i128>,
    /// The node's child block: `None` when the node has none at all,
    /// `Some` (possibly empty) when it has one.
    pub children: Option<Vec<ConfigNode>>,
}

/// The mathematical shape of a `ConfigNode`.
pub struct NodeV {
    pub name: Seq<char>,
    pub prop_name: Option<Seq<char>>,
    pub prop_cwd: Option<Seq<char>>,
    pub prop_command: Option<Seq<char>>,
    pub prop_direction: Option<Seq<char>>,
    pub prop_size: Option<i128>,
    pub children: Option<Seq<NodeV>>,
}

/// The views of the configuration nodes of `v` from position `i` on.
pub open spec fn config_views(v: Vec<ConfigNode>, i: int) -> Seq<NodeV>
    decreases v, v.len() - i,
{
    if 0 <= i < v.len() {
        seq![v[i]@].add(config_views(v, i + 1))
    } else {
        Seq::empty()
    }
}

impl ConfigNode {
    /// The view of a configuration tree.
    pub open spec fn view(&self) -> NodeV
        decreases self, 0nat,
    {
        NodeV {
            name: self.name@,
            prop_name: self.prop_name.deep_view(),
            prop_cwd: self.prop_cwd.deep_view(),
            prop_command: self.prop_command.deep_view(),
            prop_direction: self.prop_direction.deep_view(),
            prop_size: self.prop_size,
            children: match &self.children {
                Option::Some(c) => Option::Some(config_views(*c, 0)),
                Option::None => Option::None,
            },
        }
    }
}

/// `config_views(v, i)` lists exactly the views of `v[i..]`.
pub proof fn lemma_config_views(v: Vec<ConfigNode>, i: int)
    requires
        0 <= i <= v.len(),
    ensures
        config_views(v, i).len() == v.len() - i,
        forall|k: int| i <= k < v.len() ==> config_views(v, i)[k - i] == v[k]@,
    decreases v.len() - i,
{
    if i < v.len() {
        lemma_config_views(v, i + 1);
    }
}

} // verus!
