//! The preset data model: layout trees of panes and splits, windows,
//! presets, and the uniform size accessor, together with the ghost view
//! types that contracts speak of and the strict sum-to-100 validators.

use crate::strutil::dec_str;
use crate::strutil::u128_to_string;
use vstd::prelude::*;
use vstd::string::*;

verus! {

/// The axis of a split.
#[derive(Clone, Copy, Debug, PartialEq, Eq, Structural)]
pub enum SplitDirection {
    Horizontal,
    Vertical,
}

/// One node of a window's layout: a terminal pane, or a split that divides
/// its area among an ordered list of child nodes. Every variant carries a
/// `size`, an integer percentage of the parent area.
#[derive(Debug)]
pub enum LayoutNode {
    Pane { cwd: Option<String>, command: Option<String>, size: u8 },
    Split { direction: SplitDirection, children: Vec<LayoutNode>, size: u8 },
}

/// The mathematical shape of a `LayoutNode`.
pub enum LayoutV {
    Pane { cwd: Option<Seq<char>>, command: Option<Seq<char>>, size: u8 },
    Split { direction: SplitDirection, children: Seq<LayoutV>, size: u8 },
}

broadcast use vstd::std_specs::vec::axiom_vec_index_decreases;

/// The views of the layout nodes of `v` from position `i` on.
pub open spec fn layout_views(v: Vec<LayoutNode>, i: int) -> Seq<LayoutV>
    decreases v, v.len() - i,
{
    if 0 <= i < v.len() {
        seq![v[i]@].add(layout_views(v, i + 1))
    } else {
        Seq::empty()
    }
}

impl LayoutNode {
    /// The view of a layout tree.
    pub open spec fn view(&self) -> LayoutV
        decreases self, 0nat,
    {
        match self {
            LayoutNode::Pane { cwd, command, size } => LayoutV::Pane {
                cwd: cwd.deep_view(),
                command: command.deep_view(),
                size: *size,
            },
            LayoutNode::Split { direction, children, size } => LayoutV::Split {
                direction: *direction,
                children: layout_views(*children, 0),
                size: *size,
            },
        }
    }

    /// The size this node claims of its parent's area, whatever its variant.
    pub fn size(&self) -> (s: u8)
        ensures
            s == self@.size(),
    {
        match self {
            LayoutNode::Pane { size, .. } => *size,
            LayoutNode::Split { size, .. } => *size,
        }
    }

    /// Replaces this node's size, leaving everything else unchanged.
    pub fn set_size(&mut self, val: u8)
        ensures
            final(self)@ == old(self)@.with_size(val),
    {
        match self {
            LayoutNode::Pane { size, .. } => *size = val,
            LayoutNode::Split { size, .. } => *size = val,
        }
        proof {
            assert(self@ =~= old(self)@.with_size(val));
        }
    }
}

impl LayoutV {
    pub open spec fn size(self) -> u8 {
        match self {
            LayoutV::Pane { size, .. } => size,
            LayoutV::Split { size, .. } => size,
        }
    }

    /// The same node with its size replaced.
    pub open spec fn with_size(self, val: u8) -> LayoutV {
        match self {
            LayoutV::Pane { cwd, command, .. } => LayoutV::Pane { cwd, command, size: val },
            LayoutV::Split { direction, children, .. } => LayoutV::Split {
                direction,
                children,
                size: val,
            },
        }
    }
}

/// One window of a preset: a name, a working directory and a layout tree.
#[derive(Debug)]
pub struct Window {
    pub name: String,
    pub cwd: String,
    pub layout: LayoutNode,
}

pub struct WindowV {
    pub name: Seq<char>,
    pub cwd: Seq<char>,
    pub layout: LayoutV,
}

impl Window {
    pub open spec fn view(&self) -> WindowV {
        WindowV { name: self.name@, cwd: self.cwd@, layout: self.layout@ }
    }
}

/// A named, reusable session layout definition. `running` is transient
/// state kept by the surrounding application, never set by the parser.
#[derive(Debug)]
pub struct Preset {
    pub name: String,
    pub cwd: String,
    pub windows: Vec<Window>,
    pub running: bool,
}

pub struct PresetV {
    pub name: Seq<char>,
    pub cwd: Seq<char>,
    pub windows: Seq<WindowV>,
    pub running: bool,
}

/// The views of a list of windows.
pub open spec fn windows_view(v: Vec<Window>) -> Seq<WindowV> {
    Seq::new(v.len() as nat, |i: int| v[i]@)
}

/// The views of a list of presets.
pub open spec fn presets_view(v: Vec<Preset>) -> Seq<PresetV> {
    Seq::new(v.len() as nat, |i: int| v[i]@)
}

impl Preset {
    pub open spec fn view(&self) -> PresetV {
        PresetV {
            name: self.name@,
            cwd: self.cwd@,
            windows: windows_view(self.windows),
            running: self.running,
        }
    }
}

/// One live multiplexer session as the backend reports it.
#[derive(Clone, Debug, PartialEq)]
pub struct Session {
    pub name: String,
    pub windows: String,
    pub active: bool,
}

impl Session {
    /// A copy of the session entry.
    pub fn dup(&self) -> (r: Session)
        ensures
            r.name@ == self.name@,
            r.windows@ == self.windows@,
            r.active == self.active,
    {
        Session {
            name: self.name.clone(),
            windows: self.windows.clone(),
            active: self.active,
        }
    }
}

/// The sum of the sizes of a sequence of layout nodes.
pub open spec fn sizes_sum(children: Seq<LayoutV>, i: int) -> int
    decreases children.len() - i,
{
    if 0 <= i < children.len() {
        children[i].size() + sizes_sum(children, i + 1)
    } else {
        0
    }
}

/// Every split in the tree has children whose sizes sum to exactly 100.
pub open spec fn spec_sums_to_100(node: LayoutV) -> bool
    decreases node, 1nat, 0nat,
{
    match node {
        LayoutV::Pane { .. } => true,
        LayoutV::Split { children, .. } => sizes_sum(children, 0) == 100
            && spec_all_sum_to_100(children, 0),
    }
}

pub open spec fn spec_all_sum_to_100(children: Seq<LayoutV>, i: int) -> bool
    decreases children, children.len() - i, 1nat,
{
    if 0 <= i < children.len() {
        spec_sums_to_100(children[i]) && spec_all_sum_to_100(children, i + 1)
    } else {
        true
    }
}

/// `layout_views(v, i)` lists exactly the views of `v[i..]`.
pub proof fn lemma_layout_views(v: Vec<LayoutNode>, i: int)
    requires
        0 <= i <= v.len(),
    ensures
        layout_views(v, i).len() == v.len() - i,
        forall|k: int| i <= k < v.len() ==> layout_views(v, i)[k - i] == v[k]@,
    decreases v.len() - i,
{
    if i < v.len() {
        lemma_layout_views(v, i + 1);
    }
}

/// Sizes are single bytes, so a size sum is bounded by the child count.
pub proof fn lemma_sizes_sum_bound(children: Seq<LayoutV>, i: int)
    requires
        0 <= i <= children.len(),
    ensures
        0 <= sizes_sum(children, i) <= 255 * (children.len() - i),
    decreases children.len() - i,
{
    if i < children.len() {
        lemma_sizes_sum_bound(children, i + 1);
    }
}

/// Decides whether two option strings hold the same text.
fn opt_str_eq(a: &Option<String>, b: &Option<String>) -> (r: bool)
    ensures
        r == (a.deep_view() == b.deep_view()),
{
    match (a, b) {
        (Option::Some(x), Option::Some(y)) => crate::strutil::str_eq(x.as_str(), y.as_str()),
        (Option::None, Option::None) => true,
        _ => false,
    }
}

impl LayoutNode {
    /// Whether two layout trees are structurally identical.
    pub fn tree_eq(&self, other: &LayoutNode) -> (r: bool)
        ensures
            r == (self@ == other@),
        decreases self, 0nat,
    {
        match (self, other) {
            (
                LayoutNode::Pane { cwd: ca, command: ma, size: sa },
                LayoutNode::Pane { cwd: cb, command: mb, size: sb },
            ) => opt_str_eq(ca, cb) && opt_str_eq(ma, mb) && *sa == *sb,
            (
                LayoutNode::Split { direction: da, children: ca, size: sa },
                LayoutNode::Split { direction: db, children: cb, size: sb },
            ) => {
                if *da == *db && *sa == *sb {
                    trees_eq(ca, cb, 0)
                } else {
                    false
                }
            },
            _ => false,
        }
    }
}

/// Whether two layout lists agree from position `i` on.
fn trees_eq(a: &Vec<LayoutNode>, b: &Vec<LayoutNode>, i: usize) -> (r: bool)
    requires
        i <= a.len(),
        i <= b.len(),
    ensures
        r == (layout_views(*a, i as int) == layout_views(*b, i as int)),
    decreases a, a.len() - i,
{
    proof {
        lemma_layout_views(*a, i as int);
        lemma_layout_views(*b, i as int);
    }
    if a.len() - i != b.len() - i {
        assert(layout_views(*a, i as int).len() != layout_views(*b, i as int).len());
        return false;
    }
    if i == a.len() {
        assert(layout_views(*a, i as int) =~= layout_views(*b, i as int));
        return true;
    }
    let heads = a[i].tree_eq(&b[i]);
    if !heads {
        assert(layout_views(*a, i as int)[0] != layout_views(*b, i as int)[0]);
        return false;
    }
    let tails = trees_eq(a, b, i + 1);
    if tails {
        assert(layout_views(*a, i as int) =~= layout_views(*b, i as int));
        true
    } else {
        proof {
            let va = layout_views(*a, i as int);
            let vb = layout_views(*b, i as int);
            let ta = layout_views(*a, i + 1int);
            let tb = layout_views(*b, i + 1int);
            lemma_layout_views(*a, i + 1int);
            lemma_layout_views(*b, i + 1int);
            if va == vb {
                assert forall|k: int| 0 <= k < ta.len() implies ta[k] == tb[k] by {
                    assert(va[k + 1] == ta[k]);
                    assert(vb[k + 1] == tb[k]);
                }
                assert(ta =~= tb);
            }
        }
        false
    }
}

impl Window {
    /// Whether two windows are structurally identical.
    pub fn window_eq(&self, other: &Window) -> (r: bool)
        ensures
            r == (self@ == other@),
    {
        crate::strutil::str_eq(self.name.as_str(), other.name.as_str())
            && crate::strutil::str_eq(self.cwd.as_str(), other.cwd.as_str()) && self.layout.tree_eq(
            &other.layout,
        )
    }
}

impl Preset {
    /// Whether two presets are structurally identical, `running` included.
    pub fn preset_eq(&self, other: &Preset) -> (r: bool)
        ensures
            r == (self@ == other@),
    {
        if !crate::strutil::str_eq(self.name.as_str(), other.name.as_str()) {
            return false;
        }
        if !crate::strutil::str_eq(self.cwd.as_str(), other.cwd.as_str()) {
            return false;
        }
        if self.running != other.running {
            return false;
        }
        if self.windows.len() != other.windows.len() {
            assert(self@.windows.len() != other@.windows.len());
            return false;
        }
        let n = self.windows.len();
        let mut i: usize = 0;
        while i < n
            invariant
                0 <= i <= n,
                n == self.windows.len(),
                n == other.windows.len(),
                self@.name == other@.name,
                self@.cwd == other@.cwd,
                self@.running == other@.running,
                forall|k: int| 0 <= k < i ==> self@.windows[k] == other@.windows[k],
            decreases n - i,
        {
            if !self.windows[i].window_eq(&other.windows[i]) {
                assert(self@.windows[i as int] != other@.windows[i as int]);
                return false;
            }
            i = i + 1;
        }
        proof {
            assert(self@.windows =~= other@.windows);
        }
        true
    }
}

/// The sizes of a list of layout nodes, rendered the way the validator's
/// error message shows them: decimal values separated by comma and space.
pub open spec fn sizes_list_str(children: Seq<LayoutV>, i: int) -> Seq<char>
    decreases children.len() - i,
{
    if 0 <= i < children.len() {
        if i == children.len() - 1 {
            dec_str(children[i].size() as nat)
        } else {
            dec_str(children[i].size() as nat) + ", "@ + sizes_list_str(children, i + 1)
        }
    } else {
        Seq::empty()
    }
}

/// The message the validator reports for a split whose sizes miss 100.
pub open spec fn sum_error_msg(children: Seq<LayoutV>) -> Seq<char> {
    "Percentages ["@ + sizes_list_str(children, 0) + "] add up to "@ + dec_str(
        sizes_sum(children, 0) as nat,
    ) + ", expected 100."@
}

/// What the strict validator returns: `Ok` unless some split's children
/// sizes miss 100, and then the message for the first such split in
/// preorder, a split before its children.
pub open spec fn spec_verify_layout(node: LayoutV) -> Result<(), Seq<char>>
    decreases node, 0nat,
{
    match node {
        LayoutV::Pane { .. } => Ok(()),
        LayoutV::Split { children, .. } => {
            if sizes_sum(children, 0) != 100 {
                Err(sum_error_msg(children))
            } else {
                spec_verify_children(children, 0)
            }
        },
    }
}

pub open spec fn spec_verify_children(children: Seq<LayoutV>, i: int) -> Result<(), Seq<char>>
    decreases children, children.len() - i,
{
    if 0 <= i < children.len() {
        match spec_verify_layout(children[i]) {
            Err(e) => Err(e),
            Ok(u) => spec_verify_children(children, i + 1),
        }
    } else {
        Ok(())
    }
}

/// The validator accepts a layout exactly when every split sums to 100.
pub proof fn lemma_verify_iff(node: LayoutV)
    ensures
        spec_verify_layout(node) is Ok <==> spec_sums_to_100(node),
    decreases node, 0nat,
{
    match node {
        LayoutV::Pane { .. } => {},
        LayoutV::Split { children, .. } => {
            lemma_verify_children_iff(children, 0);
        },
    }
}

proof fn lemma_verify_children_iff(children: Seq<LayoutV>, i: int)
    requires
        0 <= i <= children.len(),
    ensures
        spec_verify_children(children, i) is Ok <==> spec_all_sum_to_100(children, i),
    decreases children, children.len() - i,
{
    if i < children.len() {
        lemma_verify_iff(children[i]);
        lemma_verify_children_iff(children, i + 1);
    }
}

/// Sums the sizes of the layout nodes of `v` from position `i` on.
pub fn sum_sizes(v: &Vec<LayoutNode>, i: usize) -> (s: u128)
    requires
        i <= v.len(),
    ensures
        s == sizes_sum(layout_views(*v, 0), i as int),
    decreases v.len() - i,
{
    proof {
        lemma_layout_views(*v, 0);
        lemma_sizes_sum_bound(layout_views(*v, 0), i as int);
        if i < v.len() {
            lemma_sizes_sum_bound(layout_views(*v, 0), i + 1int);
        }
    }
    if i == v.len() {
        0
    } else {
        let rest = sum_sizes(v, i + 1);
        v[i].size() as u128 + rest
    }
}

/// Renders the sizes of the layout nodes of `v` from position `i` on.
fn sizes_list_string(v: &Vec<LayoutNode>, i: usize) -> (s: String)
    requires
        i <= v.len(),
    ensures
        s@ == sizes_list_str(layout_views(*v, 0), i as int),
    decreases v.len() - i,
{
    proof {
        lemma_layout_views(*v, 0);
    }
    if i == v.len() {
        let s = String::new();
        assert(s@ =~= sizes_list_str(layout_views(*v, 0), i as int));
        s
    } else if i == v.len() - 1 {
        u128_to_string(v[i].size() as u128)
    } else {
        let mut s = u128_to_string(v[i].size() as u128);
        s.append(", ");
        let rest = sizes_list_string(v, i + 1);
        s.append(rest.as_str());
        s
    }
}

/// Checks that every split in the tree has children sizes summing to
/// exactly 100, and otherwise reports the first offending split.
pub fn verify_layout_recursive(layout: &LayoutNode) -> (r: Result<(), String>)
    ensures
        r is Ok <==> spec_sums_to_100(layout@),
        match r {
            Ok(u) => spec_verify_layout(layout@) is Ok,
            Err(e) => spec_verify_layout(layout@) matches Err(m) && e@ == m,
        },
    decreases layout, 0nat,
{
    proof {
        lemma_verify_iff(layout@);
    }
    match layout {
        LayoutNode::Pane { .. } => Ok(()),
        LayoutNode::Split { children, .. } => {
            let sum = sum_sizes(children, 0);
            if sum != 100 {
                let mut msg = String::from_str("Percentages [");
                let list = sizes_list_string(children, 0);
                msg.append(list.as_str());
                msg.append("] add up to ");
                let sum_str = u128_to_string(sum);
                msg.append(sum_str.as_str());
                msg.append(", expected 100.");
                Err(msg)
            } else {
                verify_children(children, 0)
            }
        },
    }
}

fn verify_children(children: &Vec<LayoutNode>, i: usize) -> (r: Result<(), String>)
    requires
        i <= children.len(),
    ensures
        match r {
            Ok(u) => spec_verify_children(layout_views(*children, 0), i as int) is Ok,
            Err(e) => spec_verify_children(layout_views(*children, 0), i as int) matches Err(m)
                && e@ == m,
        },
    decreases children, children.len() - i,
{
    proof {
        lemma_layout_views(*children, 0);
    }
    if i == children.len() {
        Ok(())
    } else {
        match verify_layout_recursive(&children[i]) {
            Err(e) => Err(e),
            Ok(u) => verify_children(children, i + 1),
        }
    }
}

/// What the strict preset validator returns: the first failing window's
/// message, in window order.
pub open spec fn spec_verify_preset(p: PresetV, i: int) -> Result<(), Seq<char>>
    decreases p.windows.len() - i,
{
    if 0 <= i < p.windows.len() {
        match spec_verify_layout(p.windows[i].layout) {
            Err(e) => Err(e),
            Ok(u) => spec_verify_preset(p, i + 1),
        }
    } else {
        Ok(())
    }
}

/// Checks every window of a preset with `verify_layout_recursive`.
pub fn verify_preset(preset: &Preset) -> (r: Result<(), String>)
    ensures
        r is Ok <==> (forall|k: int|
            0 <= k < preset@.windows.len() ==> spec_sums_to_100(
                #[trigger] preset@.windows[k].layout,
            )),
        match r {
            Ok(u) => spec_verify_preset(preset@, 0) is Ok,
            Err(e) => spec_verify_preset(preset@, 0) matches Err(m) && e@ == m,
        },
{
    let n = preset.windows.len();
    let mut i: usize = 0;
    while i < n
        invariant
            0 <= i <= n,
            n == preset.windows.len(),
            spec_verify_preset(preset@, 0) == spec_verify_preset(preset@, i as int),
            forall|k: int| 0 <= k < i ==> spec_sums_to_100(#[trigger] preset@.windows[k].layout),
        decreases n - i,
    {
        assert(preset@.windows[i as int] == preset.windows[i as int]@);
        match verify_layout_recursive(&preset.windows[i].layout) {
            Err(e) => {
                proof {
                    lemma_verify_iff(preset@.windows[i as int].layout);
                }
                return Err(e);
            },
            Ok(u) => {},
        }
        proof {
            lemma_verify_iff(preset@.windows[i as int].layout);
        }
        i = i + 1;
    }
    Ok(())
}

} // verus!
