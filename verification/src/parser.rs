//! The preset grammar: turning a configuration node tree into presets.
//!
//! A document holds `session` nodes; a session holds `window` nodes; a
//! window holds at most one root `pane` or `split`; a split holds one or
//! more `pane`/`split` children, each with an optional integer `size`.
//! Children without an explicit size share what is left of 100 equally,
//! by truncating division, with no redistribution of the remainder.

use crate::config::{lemma_config_views, config_views, ConfigNode, NodeV};
use crate::kdl_bridge::{err_too_deep, kdl_parse_of, nodes_exceed};
use crate::model::{
    lemma_layout_views, layout_views, presets_view, windows_view, LayoutNode, LayoutV, Preset,
    PresetV, SplitDirection, Window, WindowV,
};
use crate::plan::{all_splits_nonempty, splits_nonempty, windows_splits_nonempty};
use crate::strutil::{
    dec_str, lemma_lex_le_antisym, lemma_lex_le_total, lemma_lex_le_trans, lex_le, str_eq, str_le,
    usize_to_string,
};
use vstd::prelude::*;
use vstd::string::*;

verus! {

broadcast use vstd::std_specs::vec::axiom_vec_index_decreases;

/// A property value, or its fallback where the property is absent.
pub open spec fn or_default(o: Option<Seq<char>>, d: Seq<char>) -> Seq<char> {
    match o {
        Option::Some(s) => s,
        Option::None => d,
    }
}

/// A declared size taken to a byte the way a narrowing integer cast takes
/// it: the value modulo 256.
pub open spec fn size_u8(v: i128) -> u8 {
    ((v % 256) as u8)
}

/// The size a node declares, or zero.
pub open spec fn node_size_or_zero(n: NodeV) -> u8 {
    match n.prop_size {
        Option::Some(v) => size_u8(v),
        Option::None => 0,
    }
}

pub open spec fn err_unexpected_node(name: Seq<char>) -> Seq<char> {
    "Unexpected node: `"@ + name + "`"@
}

pub open spec fn err_invalid_direction(d: Seq<char>) -> Seq<char> {
    "Invalid direction: `"@ + d + "`"@
}

pub open spec fn err_empty_split() -> Seq<char> {
    "Split nodes must contain children"@
}

/// What parsing one layout node under `parent_cwd` yields: a `pane` leaf,
/// a `split` with its children, or an error for any other node name.
/// A node's own size is its declared size or zero; a split's children are
/// then adjusted by `spec_adjusted_kids`.
pub open spec fn spec_parse_node(n: NodeV, parent_cwd: Seq<char>) -> Result<LayoutV, Seq<char>>
    decreases n, 2nat, 0nat,
{
    if n.name == "pane"@ {
        Ok(
            LayoutV::Pane {
                cwd: Option::Some(or_default(n.prop_cwd, parent_cwd)),
                command: n.prop_command,
                size: node_size_or_zero(n),
            },
        )
    } else if n.name == "split"@ {
        spec_parse_split(n, parent_cwd)
    } else {
        Err(err_unexpected_node(n.name))
    }
}

/// Parsing a `split` node: direction `h`/`horizontal` or `v`/`vertical`
/// (default vertical), then the children, which must exist and be
/// non-empty, with implicit sizes distributed.
pub open spec fn spec_parse_split(n: NodeV, parent_cwd: Seq<char>) -> Result<LayoutV, Seq<char>>
    decreases n, 1nat, 0nat,
{
    let dir_str = or_default(n.prop_direction, "v"@);
    if dir_str == "h"@ || dir_str == "horizontal"@ {
        spec_parse_split_dir(n, SplitDirection::Horizontal, parent_cwd)
    } else if dir_str == "v"@ || dir_str == "vertical"@ {
        spec_parse_split_dir(n, SplitDirection::Vertical, parent_cwd)
    } else {
        Err(err_invalid_direction(dir_str))
    }
}

pub open spec fn spec_parse_split_dir(n: NodeV, dir: SplitDirection, parent_cwd: Seq<char>) -> Result<
    LayoutV,
    Seq<char>,
>
    decreases n, 0nat, 0nat,
{
    match n.children {
        Option::None => Err(err_empty_split()),
        Option::Some(cs) => match spec_parse_kids(cs, parent_cwd, 0) {
            Err(e) => Err(e),
            Ok(parsed) => {
                if parsed.len() == 0 {
                    Err(err_empty_split())
                } else {
                    Ok(
                        LayoutV::Split {
                            direction: dir,
                            children: spec_adjusted_kids(parsed, cs),
                            size: node_size_or_zero(n),
                        },
                    )
                }
            },
        },
    }
}

/// The parsed children of a split, from position `i` on, the first error
/// winning.
pub open spec fn spec_parse_kids(cs: Seq<NodeV>, parent_cwd: Seq<char>, i: int) -> Result<
    Seq<LayoutV>,
    Seq<char>,
>
    decreases cs, cs.len() - i, 2nat,
{
    if 0 <= i < cs.len() {
        match spec_parse_node(cs[i], parent_cwd) {
            Err(e) => Err(e),
            Ok(l) => match spec_parse_kids(cs, parent_cwd, i + 1) {
                Err(e) => Err(e),
                Ok(t) => Ok(seq![l].add(t)),
            },
        }
    } else {
        Ok(Seq::empty())
    }
}

/// The sum of the declared sizes of `cs[i..]`, each taken modulo 256.
pub open spec fn spec_explicit_total(cs: Seq<NodeV>, i: int) -> int
    decreases cs.len() - i,
{
    if 0 <= i < cs.len() {
        (match cs[i].prop_size {
            Option::Some(p) => size_u8(p) as int,
            Option::None => 0,
        }) + spec_explicit_total(cs, i + 1)
    } else {
        0
    }
}

/// How many of `cs[i..]` declare no size.
pub open spec fn spec_missing_count(cs: Seq<NodeV>, i: int) -> int
    decreases cs.len() - i,
{
    if 0 <= i < cs.len() {
        (if cs[i].prop_size is None {
            1int
        } else {
            0int
        }) + spec_missing_count(cs, i + 1)
    } else {
        0
    }
}

/// What is left of 100 after the declared sizes, zero when they already
/// reach it.
pub open spec fn spec_remaining(cs: Seq<NodeV>) -> int {
    let total = spec_explicit_total(cs, 0);
    if total >= 100 {
        0
    } else {
        100 - total
    }
}

/// The single size every child without a declared size receives: the
/// remainder of 100 divided, truncating, by the count of such children.
pub open spec fn spec_share(cs: Seq<NodeV>) -> u8 {
    (spec_remaining(cs) / spec_missing_count(cs, 0)) as u8
}

/// The split's children with implicit sizes filled in: children that
/// declared no size all get the share; the rest keep their parsed size.
pub open spec fn spec_adjusted_kids(parsed: Seq<LayoutV>, cs: Seq<NodeV>) -> Seq<LayoutV> {
    if spec_missing_count(cs, 0) > 0 {
        Seq::new(
            parsed.len(),
            |k: int|
                if k < cs.len() && cs[k].prop_size is None {
                    parsed[k].with_size(spec_share(cs))
                } else {
                    parsed[k]
                },
        )
    } else {
        parsed
    }
}

/// A successful child parse yields exactly one layout per child node.
pub proof fn lemma_parse_kids_len(cs: Seq<NodeV>, cwd: Seq<char>, i: int)
    requires
        0 <= i <= cs.len(),
    ensures
        spec_parse_kids(cs, cwd, i) matches Ok(s) ==> s.len() == cs.len() - i,
    decreases cs.len() - i,
{
    if i < cs.len() {
        lemma_parse_kids_len(cs, cwd, i + 1);
    }
}

proof fn lemma_explicit_total_bounds(cs: Seq<NodeV>, i: int)
    requires
        0 <= i <= cs.len(),
    ensures
        0 <= spec_explicit_total(cs, i) <= 255 * (cs.len() - i),
        0 <= spec_missing_count(cs, i) <= cs.len() - i,
    decreases cs.len() - i,
{
    if i < cs.len() {
        lemma_explicit_total_bounds(cs, i + 1);
    }
}

/// Takes a declared size to a byte as a narrowing cast would.
pub fn trunc_size(v: i128) -> (s: u8)
    ensures
        s == size_u8(v),
{
    let m = v % 256;
    let m2 = if m < 0 {
        m + 256
    } else {
        m
    };
    m2 as u8
}

fn node_size_or_zero_exec(node: &ConfigNode) -> (s: u8)
    ensures
        s == node_size_or_zero(node@),
{
    match &node.prop_size {
        Option::Some(v) => trunc_size(*v),
        Option::None => 0,
    }
}

/// Parses one layout node (a `pane` or a `split`) under `parent_cwd`.
pub fn parse_node_recursive(node: &ConfigNode, parent_cwd: &str) -> (r: Result<LayoutNode, String>)
    ensures
        match r {
            Ok(l) => spec_parse_node(node@, parent_cwd@) matches Ok(lv) && l@ == lv,
            Err(e) => spec_parse_node(node@, parent_cwd@) matches Err(m) && e@ == m,
        },
    decreases node, 1nat, 0nat,
{
    if str_eq(node.name.as_str(), "pane") {
        let cwd: String = match &node.prop_cwd {
            Option::Some(c) => c.clone(),
            Option::None => String::from_str(parent_cwd),
        };
        let command: Option<String> = match &node.prop_command {
            Option::Some(c) => Option::Some(c.clone()),
            Option::None => Option::None,
        };
        let size = node_size_or_zero_exec(node);
        Ok(LayoutNode::Pane { cwd: Option::Some(cwd), command, size })
    } else if str_eq(node.name.as_str(), "split") {
        parse_split(node, parent_cwd)
    } else {
        let mut e = String::from_str("Unexpected node: `");
        e.append(node.name.as_str());
        e.append("`");
        Err(e)
    }
}

fn parse_split(node: &ConfigNode, parent_cwd: &str) -> (r: Result<LayoutNode, String>)
    requires
        node@.name == "split"@,
        node@.name != "pane"@,
    ensures
        match r {
            Ok(l) => spec_parse_node(node@, parent_cwd@) matches Ok(lv) && l@ == lv,
            Err(e) => spec_parse_node(node@, parent_cwd@) matches Err(m) && e@ == m,
        },
    decreases node, 0nat, 1nat,
{
    let dir_str: &str = match &node.prop_direction {
        Option::Some(d) => d.as_str(),
        Option::None => "v",
    };
    let is_h = str_eq(dir_str, "h") || str_eq(dir_str, "horizontal");
    let is_v = str_eq(dir_str, "v") || str_eq(dir_str, "vertical");
    if !is_h && !is_v {
        let mut e = String::from_str("Invalid direction: `");
        e.append(dir_str);
        e.append("`");
        return Err(e);
    }
    let direction: SplitDirection = if is_h {
        SplitDirection::Horizontal
    } else {
        SplitDirection::Vertical
    };
    let ghost spec_result = spec_parse_split_dir(node@, direction, parent_cwd@);
    proof {
        assert(spec_parse_node(node@, parent_cwd@) == spec_result);
    }
    let children_src: &Vec<ConfigNode> = match &node.children {
        Option::None => {
            return Err(String::from_str("Split nodes must contain children"));
        },
        Option::Some(cs) => cs,
    };
    let mut kids = match parse_kids(children_src, parent_cwd, 0) {
        Ok(v) => v,
        Err(e) => {
            return Err(e);
        },
    };
    if kids.len() == 0 {
        proof {
            lemma_config_views(*children_src, 0);
        }
        return Err(String::from_str("Split nodes must contain children"));
    }
    let ghost cs = config_views(*children_src, 0);
    let ghost parsed = layout_views(kids, 0);
    proof {
        lemma_config_views(*children_src, 0);
        lemma_layout_views(kids, 0);
        lemma_explicit_total_bounds(cs, 0);
        lemma_parse_kids_len(cs, parent_cwd@, 0);
        assert(parsed.len() == cs.len());
    }
    let missing = missing_count(children_src, 0);
    if missing > 0 {
        let total = explicit_total(children_src, 0);
        let remaining: u128 = if total >= 100 {
            0
        } else {
            100 - total
        };
        let share: u8 = (remaining / (missing as u128)) as u8;
        assert(share == spec_share(cs));
        let n = kids.len();
        let mut k: usize = 0;
        while k < n
            invariant
                0 <= k <= n,
                n == kids.len(),
                n == parsed.len(),
                missing as int == spec_missing_count(cs, 0),
                missing > 0,
                share == spec_share(cs),
                cs == config_views(*children_src, 0),
                cs.len() == children_src.len(),
                parsed.len() == cs.len(),
                forall|j: int| 0 <= j < n ==> #[trigger] layout_views(kids, 0)[j] == (
                if j < k && cs[j].prop_size is None {
                    parsed[j].with_size(share)
                } else {
                    parsed[j]
                }),
            decreases n - k,
        {
            proof {
                lemma_layout_views(kids, 0);
                lemma_config_views(*children_src, 0);
            }
            if children_src[k].prop_size.is_none() {
                let ghost before = kids;
                kids[k].set_size(share);
                proof {
                    lemma_layout_views(kids, 0);
                    assert(kids@ =~= before@.update(k as int, kids@[k as int]));
                    assert forall|j: int| 0 <= j < n implies #[trigger] layout_views(kids, 0)[j]
                        == (if j < k + 1 && cs[j].prop_size is None {
                        parsed[j].with_size(share)
                    } else {
                        parsed[j]
                    }) by {
                        if j == k {
                            assert(kids[j]@ == before[j]@.with_size(share));
                            assert(layout_views(before, 0)[j] == parsed[j]);
                        } else {
                            assert(kids[j] == before[j]);
                            assert(layout_views(before, 0)[j] == layout_views(kids, 0)[j]);
                        }
                    }
                }
            }
            k = k + 1;
        }
        proof {
            lemma_layout_views(kids, 0);
            assert(layout_views(kids, 0) =~= spec_adjusted_kids(parsed, cs));
        }
    } else {
        proof {
            assert(layout_views(kids, 0) =~= spec_adjusted_kids(parsed, cs));
        }
    }
    let size = node_size_or_zero_exec(node);
    let result = LayoutNode::Split { direction, children: kids, size };
    Ok(result)
}

/// Parses the children of a split from position `i` on.
fn parse_kids(cs: &Vec<ConfigNode>, parent_cwd: &str, i: usize) -> (r: Result<
    Vec<LayoutNode>,
    String,
>)
    requires
        i <= cs.len(),
    ensures
        match r {
            Ok(v) => spec_parse_kids(config_views(*cs, 0), parent_cwd@, i as int) matches Ok(s)
                && layout_views(v, 0) == s,
            Err(e) => spec_parse_kids(config_views(*cs, 0), parent_cwd@, i as int) matches Err(m)
                && e@ == m,
        },
    decreases cs, cs.len() - i, 2nat,
{
    proof {
        lemma_config_views(*cs, 0);
    }
    if i == cs.len() {
        let v = Vec::new();
        proof {
            lemma_layout_views(v, 0);
            assert(layout_views(v, 0) =~= Seq::<LayoutV>::empty());
        }
        Ok(v)
    } else {
        let head = match parse_node_recursive(&cs[i], parent_cwd) {
            Ok(l) => l,
            Err(e) => {
                return Err(e);
            },
        };
        let mut rest = match parse_kids(cs, parent_cwd, i + 1) {
            Ok(v) => v,
            Err(e) => {
                return Err(e);
            },
        };
        let ghost before = rest;
        let ghost tail_views = layout_views(rest, 0);
        let ghost head_view = head@;
        proof {
            lemma_layout_views(before, 0);
        }
        rest.insert(0, head);
        proof {
            lemma_layout_views(rest, 0);
            before@.insert_ensures(0, head);
            assert forall|j: int| 0 <= j < rest.len() implies #[trigger] layout_views(rest, 0)[j]
                == seq![head_view].add(tail_views)[j] by {
                if j > 0 {
                    assert(rest@[j] == before@[j - 1]);
                    assert(before[j - 1]@ == tail_views[j - 1]);
                }
            }
            assert(layout_views(rest, 0) =~= seq![head_view].add(tail_views));
        }
        Ok(rest)
    }
}

/// The layout a window without any layout node gets: one full-size pane
/// in the window's working directory.
pub open spec fn default_pane(cwd: Seq<char>) -> LayoutV {
    LayoutV::Pane { cwd: Option::Some(cwd), command: Option::None, size: 100 }
}

/// The window a session without any window node gets.
pub open spec fn default_window(cwd: Seq<char>) -> WindowV {
    WindowV { name: "main"@, cwd, layout: default_pane(cwd) }
}

pub open spec fn err_one_root() -> Seq<char> {
    "Expected exactly one root `split` or `pane` node"@
}

pub open spec fn err_unknown_window(name: Seq<char>) -> Seq<char> {
    "Unknown session child node: `"@ + name + "`"@
}

pub open spec fn err_not_session() -> Seq<char> {
    "Node is not a session"@
}

pub open spec fn err_missing_name() -> Seq<char> {
    "Missing or invalid session name!"@
}

/// What a window body yields: no node means a single full-size pane, one
/// node is the root layout forced to size 100, more than one is an error.
pub open spec fn spec_parse_panes(cs: Seq<NodeV>, window_cwd: Seq<char>) -> Result<
    LayoutV,
    Seq<char>,
>
    decreases cs, 0nat, 3nat,
{
    if cs.len() == 0 {
        Ok(default_pane(window_cwd))
    } else if cs.len() != 1 {
        Err(err_one_root())
    } else {
        match spec_parse_node(cs[0], window_cwd) {
            Err(e) => Err(e),
            Ok(l) => Ok(l.with_size(100)),
        }
    }
}

/// What one session child node yields as the window at position `idx`:
/// only `window` nodes are accepted; the window's name defaults to its
/// position, its directory to the session's.
pub open spec fn spec_parse_window(w: NodeV, idx: nat, parent_cwd: Seq<char>) -> Result<
    WindowV,
    Seq<char>,
>
    decreases w, 3nat, 0nat,
{
    if w.name != "window"@ {
        Err(err_unknown_window(w.name))
    } else {
        let cwd = or_default(w.prop_cwd, parent_cwd);
        let name = or_default(w.prop_name, dec_str(idx));
        match w.children {
            Option::Some(cs) => match spec_parse_panes(cs, cwd) {
                Err(e) => Err(e),
                Ok(l) => Ok(WindowV { name, cwd, layout: l }),
            },
            Option::None => Ok(WindowV { name, cwd, layout: default_pane(cwd) }),
        }
    }
}

/// The windows of `ws[i..]`, the first error winning.
pub open spec fn spec_parse_windows(ws: Seq<NodeV>, parent_cwd: Seq<char>, i: int) -> Result<
    Seq<WindowV>,
    Seq<char>,
>
    decreases ws, ws.len() - i, 4nat,
{
    if 0 <= i < ws.len() {
        match spec_parse_window(ws[i], i as nat, parent_cwd) {
            Err(e) => Err(e),
            Ok(w) => match spec_parse_windows(ws, parent_cwd, i + 1) {
                Err(e) => Err(e),
                Ok(t) => Ok(seq![w].add(t)),
            },
        }
    } else {
        Ok(Seq::empty())
    }
}

/// The windows of a session node: a session without window nodes gets the
/// single default window.
pub open spec fn spec_session_windows(n: NodeV, cwd: Seq<char>) -> Result<Seq<WindowV>, Seq<char>>
    decreases n, 4nat, 0nat,
{
    match n.children {
        Option::None => Ok(seq![default_window(cwd)]),
        Option::Some(ws) => {
            if ws.len() == 0 {
                Ok(seq![default_window(cwd)])
            } else {
                spec_parse_windows(ws, cwd, 0)
            }
        },
    }
}

/// What one top-level node yields: only `session` nodes are accepted, the
/// `name` property is required, `cwd` defaults to `~`, and `running`
/// starts false.
pub open spec fn spec_parse_session(n: NodeV) -> Result<PresetV, Seq<char>>
    decreases n, 5nat, 0nat,
{
    if n.name != "session"@ {
        Err(err_not_session())
    } else {
        match n.prop_name {
            Option::None => Err(err_missing_name()),
            Option::Some(name) => {
                let cwd = or_default(n.prop_cwd, "~"@);
                match spec_session_windows(n, cwd) {
                    Err(e) => Err(e),
                    Ok(ws) => Ok(PresetV { name, cwd, windows: ws, running: false }),
                }
            },
        }
    }
}

/// Inserts a preset into a name-sorted list: an existing preset of the
/// same name is replaced, so a later session node wins.
pub open spec fn spec_insert_preset(s: Seq<PresetV>, p: PresetV) -> Seq<PresetV>
    decreases s.len(),
{
    if s.len() == 0 {
        seq![p]
    } else if p.name == s[0].name {
        seq![p].add(s.drop_first())
    } else if lex_le(p.name, s[0].name) {
        seq![p].add(s)
    } else {
        seq![s[0]].add(spec_insert_preset(s.drop_first(), p))
    }
}

/// What the whole document yields: the sessions of `ns[i..]` folded into
/// the name-sorted accumulator, the first error winning.
pub open spec fn spec_build_presets(ns: Seq<NodeV>, i: int, acc: Seq<PresetV>) -> Result<
    Seq<PresetV>,
    Seq<char>,
>
    decreases ns, ns.len() - i, 6nat,
{
    if 0 <= i < ns.len() {
        match spec_parse_session(ns[i]) {
            Err(e) => Err(e),
            Ok(p) => spec_build_presets(ns, i + 1, spec_insert_preset(acc, p)),
        }
    } else {
        Ok(acc)
    }
}

/// Strictly increasing preset names: sorted, with no name twice.
pub open spec fn presets_sorted(s: Seq<PresetV>) -> bool {
    forall|i: int, j: int|
        0 <= i < j < s.len() ==> lex_le(#[trigger] s[i].name, #[trigger] s[j].name) && s[i].name
            != s[j].name
}

/// Inserting into a sorted preset list keeps it sorted, and every name in
/// the result is the inserted one or one already present.
pub proof fn lemma_insert_preserves_sorted(s: Seq<PresetV>, p: PresetV)
    requires
        presets_sorted(s),
    ensures
        presets_sorted(spec_insert_preset(s, p)),
        forall|k: int|
            0 <= k < spec_insert_preset(s, p).len() ==> (#[trigger] spec_insert_preset(s, p)[k]
                == p || (exists|j: int| 0 <= j < s.len() && spec_insert_preset(s, p)[k] == s[j])),
    decreases s.len(),
{
    let r = spec_insert_preset(s, p);
    if s.len() == 0 {
    } else if p.name == s[0].name {
        assert forall|i: int, j: int| 0 <= i < j < r.len() implies lex_le(
            #[trigger] r[i].name,
            #[trigger] r[j].name,
        ) && r[i].name != r[j].name by {
            if i == 0 {
                assert(r[j] == s[j]);
                assert(lex_le(s[0].name, s[j].name) && s[0].name != s[j].name);
            } else {
                assert(r[i] == s[i] && r[j] == s[j]);
            }
        }
        assert forall|k: int| 0 <= k < r.len() implies (#[trigger] r[k] == p || (exists|j: int|
            0 <= j < s.len() && r[k] == s[j])) by {
            if k > 0 {
                assert(r[k] == s[k]);
            }
        }
    } else if lex_le(p.name, s[0].name) {
        assert forall|i: int, j: int| 0 <= i < j < r.len() implies lex_le(
            #[trigger] r[i].name,
            #[trigger] r[j].name,
        ) && r[i].name != r[j].name by {
            if i == 0 {
                assert(r[j] == s[j - 1]);
                if j > 1 {
                    lemma_lex_le_trans(p.name, s[0].name, s[j - 1].name);
                    if p.name == s[j - 1].name {
                        lemma_lex_le_antisym(s[0].name, s[j - 1].name);
                    }
                } else {
                    assert(r[j] == s[0]);
                }
            } else {
                assert(r[i] == s[i - 1] && r[j] == s[j - 1]);
            }
        }
        assert forall|k: int| 0 <= k < r.len() implies (#[trigger] r[k] == p || (exists|j: int|
            0 <= j < s.len() && r[k] == s[j])) by {
            if k > 0 {
                assert(r[k] == s[k - 1]);
            }
        }
    } else {
        let t = s.drop_first();
        assert forall|i: int, j: int| 0 <= i < j < t.len() implies lex_le(
            #[trigger] t[i].name,
            #[trigger] t[j].name,
        ) && t[i].name != t[j].name by {
            assert(t[i] == s[i + 1] && t[j] == s[j + 1]);
        }
        lemma_insert_preserves_sorted(t, p);
        let rt = spec_insert_preset(t, p);
        lemma_lex_le_total(p.name, s[0].name);
        assert(lex_le(s[0].name, p.name) && s[0].name != p.name);
        assert forall|i: int, j: int| 0 <= i < j < r.len() implies lex_le(
            #[trigger] r[i].name,
            #[trigger] r[j].name,
        ) && r[i].name != r[j].name by {
            if i == 0 {
                assert(r[j] == rt[j - 1]);
                if rt[j - 1] == p {
                } else {
                    let jj = choose|jj: int| 0 <= jj < t.len() && rt[j - 1] == t[jj];
                    assert(t[jj] == s[jj + 1]);
                    assert(lex_le(s[0].name, s[jj + 1].name) && s[0].name != s[jj + 1].name);
                }
            } else {
                assert(r[i] == rt[i - 1] && r[j] == rt[j - 1]);
            }
        }
        assert forall|k: int| 0 <= k < r.len() implies (#[trigger] r[k] == p || (exists|j: int|
            0 <= j < s.len() && r[k] == s[j])) by {
            if k == 0 {
                assert(r[k] == s[0]);
            } else {
                assert(r[k] == rt[k - 1]);
                if rt[k - 1] != p {
                    let jj = choose|jj: int| 0 <= jj < t.len() && rt[k - 1] == t[jj];
                    assert(t[jj] == s[jj + 1]);
                }
            }
        }
    }
}

/// A successful build of a document is name-sorted, provided the
/// accumulator it starts from is.
pub proof fn lemma_build_presets_sorted(ns: Seq<NodeV>, i: int, acc: Seq<PresetV>)
    requires
        presets_sorted(acc),
    ensures
        spec_build_presets(ns, i, acc) matches Ok(s) ==> presets_sorted(s),
    decreases ns.len() - i,
{
    if 0 <= i < ns.len() {
        match spec_parse_session(ns[i]) {
            Err(e) => {},
            Ok(p) => {
                lemma_insert_preserves_sorted(acc, p);
                lemma_build_presets_sorted(ns, i + 1, spec_insert_preset(acc, p));
            },
        }
    }
}

fn default_pane_exec(cwd: &str) -> (p: LayoutNode)
    ensures
        p@ == default_pane(cwd@),
{
    LayoutNode::Pane { cwd: Option::Some(String::from_str(cwd)), command: Option::None, size: 100 }
}

/// Parses a window body: the at most one root layout node.
pub fn parse_panes(window_children: &Vec<ConfigNode>, window_cwd: &str) -> (r: Result<
    LayoutNode,
    String,
>)
    ensures
        match r {
            Ok(l) => spec_parse_panes(config_views(*window_children, 0), window_cwd@)
                matches Ok(lv) && l@ == lv,
            Err(e) => spec_parse_panes(config_views(*window_children, 0), window_cwd@)
                matches Err(m) && e@ == m,
        },
{
    proof {
        lemma_config_views(*window_children, 0);
    }
    if window_children.len() == 0 {
        Ok(default_pane_exec(window_cwd))
    } else if window_children.len() != 1 {
        Err(String::from_str("Expected exactly one root `split` or `pane` node"))
    } else {
        match parse_node_recursive(&window_children[0], window_cwd) {
            Err(e) => Err(e),
            Ok(mut root) => {
                root.set_size(100);
                Ok(root)
            },
        }
    }
}

/// Parses one `window` node standing at position `idx` of its session.
pub fn parse_window(w: &ConfigNode, idx: usize, parent_cwd: &str) -> (r: Result<Window, String>)
    ensures
        match r {
            Ok(win) => spec_parse_window(w@, idx as nat, parent_cwd@) matches Ok(wv) && win@ == wv,
            Err(e) => spec_parse_window(w@, idx as nat, parent_cwd@) matches Err(m) && e@ == m,
        },
{
    if !str_eq(w.name.as_str(), "window") {
        let mut e = String::from_str("Unknown session child node: `");
        e.append(w.name.as_str());
        e.append("`");
        return Err(e);
    }
    let cwd: String = match &w.prop_cwd {
        Option::Some(c) => c.clone(),
        Option::None => String::from_str(parent_cwd),
    };
    let name: String = match &w.prop_name {
        Option::Some(n) => n.clone(),
        Option::None => usize_to_string(idx),
    };
    let layout: LayoutNode = match &w.children {
        Option::Some(cs) => match parse_panes(cs, cwd.as_str()) {
            Err(e) => {
                return Err(e);
            },
            Ok(l) => l,
        },
        Option::None => default_pane_exec(cwd.as_str()),
    };
    Ok(Window { name, cwd, layout })
}

fn default_window_exec(cwd: &str) -> (w: Window)
    ensures
        w@ == default_window(cwd@),
{
    Window {
        name: String::from_str("main"),
        cwd: String::from_str(cwd),
        layout: default_pane_exec(cwd),
    }
}

/// Parses the windows of a session body; an empty body yields the single
/// default window.
pub fn parse_windows(windows: &Vec<ConfigNode>, parent_cwd: &str) -> (r: Result<
    Vec<Window>,
    String,
>)
    ensures
        match r {
            Ok(v) => (if windows.len() == 0 {
                windows_view(v) =~= seq![default_window(parent_cwd@)]
            } else {
                spec_parse_windows(config_views(*windows, 0), parent_cwd@, 0) matches Ok(s)
                    && windows_view(v) == s
            }),
            Err(e) => windows.len() != 0 && (spec_parse_windows(
                config_views(*windows, 0),
                parent_cwd@,
                0,
            ) matches Err(m) && e@ == m),
        },
{
    if windows.len() == 0 {
        let mut v: Vec<Window> = Vec::new();
        v.push(default_window_exec(parent_cwd));
        proof {
            assert(windows_view(v) =~= seq![default_window(parent_cwd@)]);
        }
        return Ok(v);
    }
    parse_windows_from(windows, parent_cwd, 0)
}

fn parse_windows_from(windows: &Vec<ConfigNode>, parent_cwd: &str, i: usize) -> (r: Result<
    Vec<Window>,
    String,
>)
    requires
        i <= windows.len(),
    ensures
        match r {
            Ok(v) => spec_parse_windows(config_views(*windows, 0), parent_cwd@, i as int)
                matches Ok(s) && windows_view(v) == s,
            Err(e) => spec_parse_windows(config_views(*windows, 0), parent_cwd@, i as int)
                matches Err(m) && e@ == m,
        },
    decreases windows.len() - i,
{
    proof {
        lemma_config_views(*windows, 0);
    }
    if i == windows.len() {
        let v: Vec<Window> = Vec::new();
        proof {
            assert(windows_view(v) =~= Seq::<WindowV>::empty());
        }
        Ok(v)
    } else {
        let head = match parse_window(&windows[i], i, parent_cwd) {
            Ok(w) => w,
            Err(e) => {
                return Err(e);
            },
        };
        let mut rest = match parse_windows_from(windows, parent_cwd, i + 1) {
            Ok(v) => v,
            Err(e) => {
                return Err(e);
            },
        };
        let ghost tail_views = windows_view(rest);
        let ghost head_view = head@;
        let ghost before = rest;
        rest.insert(0, head);
        proof {
            before@.insert_ensures(0, head);
            assert forall|j: int| 0 <= j < rest.len() implies #[trigger] windows_view(rest)[j]
                == seq![head_view].add(tail_views)[j] by {
                if j > 0 {
                    assert(rest@[j] == before@[j - 1]);
                }
            }
            assert(windows_view(rest) =~= seq![head_view].add(tail_views));
        }
        Ok(rest)
    }
}

/// Parses one top-level `session` node into a preset.
pub fn parse_session(session: &ConfigNode) -> (r: Result<Preset, String>)
    ensures
        match r {
            Ok(p) => spec_parse_session(session@) matches Ok(pv) && p@ == pv,
            Err(e) => spec_parse_session(session@) matches Err(m) && e@ == m,
        },
{
    if !str_eq(session.name.as_str(), "session") {
        return Err(String::from_str("Node is not a session"));
    }
    let name: String = match &session.prop_name {
        Option::Some(n) => n.clone(),
        Option::None => {
            return Err(String::from_str("Missing or invalid session name!"));
        },
    };
    let cwd: String = match &session.prop_cwd {
        Option::Some(c) => c.clone(),
        Option::None => String::from_str("~"),
    };
    let windows: Vec<Window> = match &session.children {
        Option::Some(ws) => match parse_windows(ws, cwd.as_str()) {
            Ok(v) => v,
            Err(e) => {
                return Err(e);
            },
        },
        Option::None => {
            let mut v: Vec<Window> = Vec::new();
            v.push(default_window_exec(cwd.as_str()));
            proof {
                assert(windows_view(v) =~= seq![default_window(cwd@)]);
            }
            v
        },
    };
    let p = Preset { name, cwd, windows, running: false };
    Ok(p)
}

/// Where the preset belongs in the name-sorted list: the first position
/// whose name is not strictly below the preset's.
fn find_insert_pos(acc: &Vec<Preset>, p: &Preset, k: usize) -> (pos: usize)
    requires
        k <= acc.len(),
        forall|j: int|
            0 <= j < k ==> (#[trigger] presets_view(*acc)[j].name) != p@.name && !lex_le(
                p@.name,
                presets_view(*acc)[j].name,
            ),
    ensures
        k <= pos <= acc.len(),
        forall|j: int|
            0 <= j < pos ==> (#[trigger] presets_view(*acc)[j].name) != p@.name && !lex_le(
                p@.name,
                presets_view(*acc)[j].name,
            ),
        pos < acc.len() ==> (presets_view(*acc)[pos as int].name == p@.name || lex_le(
            p@.name,
            presets_view(*acc)[pos as int].name,
        )),
    decreases acc.len() - k,
{
    if k == acc.len() {
        k
    } else {
        let name_eq = str_eq(acc[k].name.as_str(), p.name.as_str());
        let le = str_le(p.name.as_str(), acc[k].name.as_str());
        if name_eq || le {
            k
        } else {
            find_insert_pos(acc, p, k + 1)
        }
    }
}

/// Skipping a prefix of names strictly below the preset's name commutes
/// with the sorted insertion.
proof fn lemma_insert_skip(s: Seq<PresetV>, pv: PresetV, pos: int)
    requires
        0 <= pos <= s.len(),
        forall|j: int|
            0 <= j < pos ==> (#[trigger] s[j].name) != pv.name && !lex_le(pv.name, s[j].name),
    ensures
        spec_insert_preset(s, pv) == s.subrange(0, pos).add(spec_insert_preset(s.skip(pos), pv)),
    decreases pos,
{
    if pos == 0 {
        assert(s.skip(0) =~= s);
        assert(s.subrange(0, 0).add(spec_insert_preset(s, pv)) =~= spec_insert_preset(s, pv));
    } else {
        let t = s.drop_first();
        assert(spec_insert_preset(s, pv) == seq![s[0]].add(spec_insert_preset(t, pv)));
        assert forall|j: int| 0 <= j < pos - 1 implies (#[trigger] t[j].name) != pv.name && !lex_le(
            pv.name,
            t[j].name,
        ) by {
            assert(t[j] == s[j + 1]);
        }
        lemma_insert_skip(t, pv, pos - 1);
        assert(t.skip(pos - 1) =~= s.skip(pos));
        assert(seq![s[0]].add(t.subrange(0, pos - 1).add(spec_insert_preset(s.skip(pos), pv)))
            =~= s.subrange(0, pos).add(spec_insert_preset(s.skip(pos), pv)));
    }
}

/// Inserts a preset into a name-sorted list, replacing a preset of the
/// same name.
fn insert_preset(acc: &mut Vec<Preset>, p: Preset)
    ensures
        presets_view(*final(acc)) == spec_insert_preset(presets_view(*old(acc)), p@),
{
    let ghost s = presets_view(*acc);
    let ghost pv = p@;
    let n = acc.len();
    let k = find_insert_pos(acc, &p, 0);
    proof {
        lemma_insert_skip(s, pv, k as int);
    }
    if k == n {
        proof {
            assert(s.skip(n as int) =~= Seq::<PresetV>::empty());
        }
        acc.push(p);
        proof {
            assert(presets_view(*acc) =~= s.subrange(0, n as int).add(seq![pv]));
            assert(s.subrange(0, n as int) =~= s);
        }
    } else {
        let name_eq = str_eq(acc[k].name.as_str(), p.name.as_str());
        let ghost tail = s.skip(k as int);
        proof {
            assert(tail[0] == s[k as int]);
            assert(tail.drop_first() =~= s.skip(k + 1int));
        }
        if name_eq {
            acc[k] = p;
            proof {
                assert(spec_insert_preset(tail, pv) == seq![pv].add(s.skip(k + 1int)));
                assert(presets_view(*acc) =~= s.subrange(0, k as int).add(
                    seq![pv].add(s.skip(k + 1int)),
                ));
            }
        } else {
            let ghost before = *acc;
            proof {
                assert(lex_le(pv.name, tail[0].name) && pv.name != tail[0].name);
                assert(spec_insert_preset(tail, pv) == seq![pv].add(tail));
            }
            acc.insert(k, p);
            proof {
                before@.insert_ensures(k as int, p);
                assert forall|j: int| 0 <= j < acc.len() implies #[trigger] presets_view(*acc)[j]
                    == s.subrange(0, k as int).add(seq![pv].add(tail))[j] by {
                    if j < k {
                        assert(acc@[j] == before@[j]);
                    } else if j == k {
                        assert(acc@[j] == p);
                    } else {
                        assert(acc@[j] == before@[j - 1]);
                        assert(tail[j - k - 1] == s[j - 1]);
                    }
                }
                assert(presets_view(*acc) =~= s.subrange(0, k as int).add(seq![pv].add(tail)));
            }
        }
    }
}

/// Builds the name-sorted preset list of a whole document's node list.
/// A later session with a name already seen replaces the earlier one.
pub fn build_presets(nodes: &Vec<ConfigNode>) -> (r: Result<Vec<Preset>, String>)
    ensures
        match r {
            Ok(v) => spec_build_presets(config_views(*nodes, 0), 0, Seq::empty()) matches Ok(s)
                && presets_view(v) == s && presets_sorted(presets_view(v)),
            Err(e) => spec_build_presets(config_views(*nodes, 0), 0, Seq::empty()) matches Err(m)
                && e@ == m,
        },
{
    let ghost ns = config_views(*nodes, 0);
    proof {
        lemma_config_views(*nodes, 0);
    }
    let n = nodes.len();
    let mut acc: Vec<Preset> = Vec::new();
    let mut i: usize = 0;
    proof {
        assert(presets_view(acc) =~= Seq::<PresetV>::empty());
    }
    while i < n
        invariant
            0 <= i <= n,
            n == nodes.len(),
            ns == config_views(*nodes, 0),
            ns.len() == n,
            spec_build_presets(ns, 0, Seq::empty()) == spec_build_presets(
                ns,
                i as int,
                presets_view(acc),
            ),
        decreases n - i,
    {
        proof {
            lemma_config_views(*nodes, 0);
        }
        match parse_session(&nodes[i]) {
            Err(e) => {
                return Err(e);
            },
            Ok(p) => {
                insert_preset(&mut acc, p);
            },
        }
        i = i + 1;
    }
    proof {
        lemma_build_presets_sorted(ns, 0, Seq::empty());
    }
    Ok(acc)
}

/// Every window of the preset has a root layout of size exactly 100.
pub open spec fn preset_roots_100(p: PresetV) -> bool {
    forall|k: int| 0 <= k < p.windows.len() ==> (#[trigger] p.windows[k].layout).size() == 100
}

proof fn lemma_windows_roots(ws: Seq<NodeV>, cwd: Seq<char>, i: int)
    requires
        0 <= i <= ws.len(),
    ensures
        spec_parse_windows(ws, cwd, i) matches Ok(s) ==> forall|k: int|
            0 <= k < s.len() ==> (#[trigger] s[k].layout).size() == 100,
    decreases ws.len() - i,
{
    if i < ws.len() {
        lemma_windows_roots(ws, cwd, i + 1);
        if spec_parse_windows(ws, cwd, i) is Ok {
            let s = spec_parse_windows(ws, cwd, i)->Ok_0;
            assert forall|k: int| 0 <= k < s.len() implies (#[trigger] s[k].layout).size()
                == 100 by {
                let head = spec_parse_window(ws[i], i as nat, cwd)->Ok_0;
                let t = spec_parse_windows(ws, cwd, i + 1)->Ok_0;
                if k == 0 {
                    assert(s[0] == head);
                } else {
                    assert(s[k] == t[k - 1]);
                }
            }
        }
    }
}

/// Whatever a session node parses to, every window's root layout has
/// size 100, no matter what sizes the document declared.
pub proof fn lemma_session_roots(n: NodeV)
    ensures
        spec_parse_session(n) matches Ok(p) ==> preset_roots_100(p),
{
    if spec_parse_session(n) matches Ok(p) {
        let cwd = or_default(n.prop_cwd, "~"@);
        match n.children {
            Option::None => {},
            Option::Some(ws) => {
                if ws.len() > 0 {
                    lemma_windows_roots(ws, cwd, 0);
                }
            },
        }
    }
}

proof fn lemma_build_roots(ns: Seq<NodeV>, i: int, acc: Seq<PresetV>)
    requires
        0 <= i <= ns.len(),
        forall|k: int| 0 <= k < acc.len() ==> preset_roots_100(#[trigger] acc[k]),
    ensures
        spec_build_presets(ns, i, acc) matches Ok(s) ==> forall|k: int|
            0 <= k < s.len() ==> preset_roots_100(#[trigger] s[k]),
    decreases ns.len() - i,
{
    if i < ns.len() {
        match spec_parse_session(ns[i]) {
            Err(e) => {},
            Ok(p) => {
                lemma_session_roots(ns[i]);
                let acc2 = spec_insert_preset(acc, p);
                lemma_insert_elements(acc, p);
                assert forall|k: int| 0 <= k < acc2.len() implies preset_roots_100(
                    #[trigger] acc2[k],
                ) by {
                    if acc2[k] != p {
                        let j = choose|j: int| 0 <= j < acc.len() && acc2[k] == acc[j];
                    }
                }
                lemma_build_roots(ns, i + 1, acc2);
            },
        }
    }
}

/// Every element of a sorted insertion is the inserted preset or one of
/// the presets already there.
proof fn lemma_insert_elements(s: Seq<PresetV>, p: PresetV)
    ensures
        forall|k: int|
            0 <= k < spec_insert_preset(s, p).len() ==> (#[trigger] spec_insert_preset(s, p)[k]
                == p || (exists|j: int| 0 <= j < s.len() && spec_insert_preset(s, p)[k] == s[j])),
    decreases s.len(),
{
    let r = spec_insert_preset(s, p);
    if s.len() == 0 {
    } else if p.name == s[0].name {
        assert forall|k: int| 0 <= k < r.len() implies (#[trigger] r[k] == p || (exists|j: int|
            0 <= j < s.len() && r[k] == s[j])) by {
            if k > 0 {
                assert(r[k] == s[k]);
            }
        }
    } else if lex_le(p.name, s[0].name) {
        assert forall|k: int| 0 <= k < r.len() implies (#[trigger] r[k] == p || (exists|j: int|
            0 <= j < s.len() && r[k] == s[j])) by {
            if k > 0 {
                assert(r[k] == s[k - 1]);
            }
        }
    } else {
        let t = s.drop_first();
        lemma_insert_elements(t, p);
        let rt = spec_insert_preset(t, p);
        assert forall|k: int| 0 <= k < r.len() implies (#[trigger] r[k] == p || (exists|j: int|
            0 <= j < s.len() && r[k] == s[j])) by {
            if k == 0 {
                assert(r[k] == s[0]);
            } else {
                assert(r[k] == rt[k - 1]);
                if rt[k - 1] != p {
                    let jj = choose|jj: int| 0 <= jj < t.len() && rt[k - 1] == t[jj];
                    assert(t[jj] == s[jj + 1]);
                }
            }
        }
    }
}

proof fn lemma_with_size_nonempty(l: LayoutV, v: u8)
    ensures
        splits_nonempty(l.with_size(v)) == splits_nonempty(l),
{
}

proof fn lemma_all_splits_from_forall(cs: Seq<LayoutV>, i: int)
    requires
        0 <= i <= cs.len(),
        forall|k: int| i <= k < cs.len() ==> splits_nonempty(#[trigger] cs[k]),
    ensures
        all_splits_nonempty(cs, i),
    decreases cs.len() - i,
{
    if i < cs.len() {
        lemma_all_splits_from_forall(cs, i + 1);
    }
}

/// Whatever layout a node parses to holds no empty split: a split
/// without children is rejected during parsing.
pub proof fn lemma_parse_node_nonempty(n: NodeV, cwd: Seq<char>)
    ensures
        spec_parse_node(n, cwd) matches Ok(l) ==> splits_nonempty(l),
    decreases n, 3nat, 0nat,
{
    lemma_split_dir_nonempty(n, SplitDirection::Horizontal, cwd);
    lemma_split_dir_nonempty(n, SplitDirection::Vertical, cwd);
}

proof fn lemma_split_dir_nonempty(n: NodeV, dir: SplitDirection, cwd: Seq<char>)
    ensures
        spec_parse_split_dir(n, dir, cwd) matches Ok(l) ==> splits_nonempty(l),
    decreases n, 2nat, 0nat,
{
    match n.children {
        Option::None => {},
        Option::Some(cs) => {
            lemma_parse_kids_nonempty(cs, cwd, 0);
            if spec_parse_kids(cs, cwd, 0) is Ok {
                let parsed = spec_parse_kids(cs, cwd, 0)->Ok_0;
                if parsed.len() > 0 {
                    let adj = spec_adjusted_kids(parsed, cs);
                    assert forall|k: int| 0 <= k < adj.len() implies splits_nonempty(
                        #[trigger] adj[k],
                    ) by {
                        lemma_with_size_nonempty(parsed[k], spec_share(cs));
                    }
                    lemma_all_splits_from_forall(adj, 0);
                }
            }
        },
    }
}

proof fn lemma_parse_kids_nonempty(cs: Seq<NodeV>, cwd: Seq<char>, i: int)
    requires
        0 <= i <= cs.len(),
    ensures
        spec_parse_kids(cs, cwd, i) matches Ok(s) ==> forall|k: int|
            0 <= k < s.len() ==> splits_nonempty(#[trigger] s[k]),
    decreases cs, cs.len() - i, 4nat,
{
    if i < cs.len() {
        lemma_parse_node_nonempty(cs[i], cwd);
        lemma_parse_kids_nonempty(cs, cwd, i + 1);
        if spec_parse_kids(cs, cwd, i) is Ok {
            let s = spec_parse_kids(cs, cwd, i)->Ok_0;
            let t = spec_parse_kids(cs, cwd, i + 1)->Ok_0;
            assert forall|k: int| 0 <= k < s.len() implies splits_nonempty(#[trigger] s[k]) by {
                if k > 0 {
                    assert(s[k] == t[k - 1]);
                }
            }
        }
    }
}

/// Whatever a session node parses to, no window's layout holds an empty
/// split.
pub proof fn lemma_session_nonempty(n: NodeV)
    ensures
        spec_parse_session(n) matches Ok(p) ==> windows_splits_nonempty(p.windows, 0),
{
    if spec_parse_session(n) is Ok {
        let p = spec_parse_session(n)->Ok_0;
        let cwd = or_default(n.prop_cwd, "~"@);
        match n.children {
            Option::None => {
                lemma_windows_splits_from_forall(p.windows, 0);
            },
            Option::Some(ws) => {
                if ws.len() > 0 {
                    lemma_windows_nonempty(ws, cwd, 0);
                }
                lemma_windows_splits_from_forall(p.windows, 0);
            },
        }
    }
}

proof fn lemma_windows_splits_from_forall(ws: Seq<WindowV>, i: int)
    requires
        0 <= i <= ws.len(),
        forall|k: int| i <= k < ws.len() ==> splits_nonempty((#[trigger] ws[k]).layout),
    ensures
        windows_splits_nonempty(ws, i),
    decreases ws.len() - i,
{
    if i < ws.len() {
        lemma_windows_splits_from_forall(ws, i + 1);
    }
}

proof fn lemma_window_nonempty(w: NodeV, idx: nat, cwd: Seq<char>)
    ensures
        spec_parse_window(w, idx, cwd) matches Ok(win) ==> splits_nonempty(win.layout),
{
    let wcwd = or_default(w.prop_cwd, cwd);
    match w.children {
        Option::None => {},
        Option::Some(cs) => {
            if cs.len() == 1 {
                lemma_parse_node_nonempty(cs[0], wcwd);
                if spec_parse_node(cs[0], wcwd) is Ok {
                    lemma_with_size_nonempty(spec_parse_node(cs[0], wcwd)->Ok_0, 100);
                }
            }
        },
    }
}

proof fn lemma_windows_nonempty(ws: Seq<NodeV>, cwd: Seq<char>, i: int)
    requires
        0 <= i <= ws.len(),
    ensures
        spec_parse_windows(ws, cwd, i) matches Ok(s) ==> forall|k: int|
            0 <= k < s.len() ==> splits_nonempty((#[trigger] s[k]).layout),
    decreases ws.len() - i,
{
    if i < ws.len() {
        lemma_window_nonempty(ws[i], i as nat, cwd);
        lemma_windows_nonempty(ws, cwd, i + 1);
        if spec_parse_windows(ws, cwd, i) is Ok {
            let s = spec_parse_windows(ws, cwd, i)->Ok_0;
            let t = spec_parse_windows(ws, cwd, i + 1)->Ok_0;
            assert forall|k: int| 0 <= k < s.len() implies splits_nonempty(
                (#[trigger] s[k]).layout,
            ) by {
                if k > 0 {
                    assert(s[k] == t[k - 1]);
                }
            }
        }
    }
}

proof fn lemma_build_nonempty(ns: Seq<NodeV>, i: int, acc: Seq<PresetV>)
    requires
        0 <= i <= ns.len(),
        forall|k: int|
            0 <= k < acc.len() ==> windows_splits_nonempty((#[trigger] acc[k]).windows, 0),
    ensures
        spec_build_presets(ns, i, acc) matches Ok(s) ==> forall|k: int|
            0 <= k < s.len() ==> windows_splits_nonempty((#[trigger] s[k]).windows, 0),
    decreases ns.len() - i,
{
    if i < ns.len() {
        match spec_parse_session(ns[i]) {
            Err(e) => {},
            Ok(p) => {
                lemma_session_nonempty(ns[i]);
                let acc2 = spec_insert_preset(acc, p);
                lemma_insert_elements(acc, p);
                assert forall|k: int| 0 <= k < acc2.len() implies windows_splits_nonempty(
                    (#[trigger] acc2[k]).windows,
                    0,
                ) by {
                    if acc2[k] != p {
                        let j = choose|j: int| 0 <= j < acc.len() && acc2[k] == acc[j];
                    }
                }
                lemma_build_nonempty(ns, i + 1, acc2);
            },
        }
    }
}

/// Building a document's presets is a function of the node views alone:
/// the same configuration tree yields structurally identical preset
/// lists, with no hidden state.
pub proof fn lemma_parse_deterministic(
    text: Seq<char>,
    r1: Result<Seq<PresetV>, Seq<char>>,
    r2: Result<Seq<PresetV>, Seq<char>>,
)
    requires
        r1 == spec_parse_config(text),
        r2 == spec_parse_config(text),
    ensures
        r1 == r2,
{
}

/// What parsing configuration text yields: the KDL parse's named node
/// list built into presets, the KDL parser's error, or — only for a
/// document nested deeper than the text is long, which no real text
/// reaches — the nesting error.
pub open spec fn spec_parse_config(text: Seq<char>) -> Result<Seq<PresetV>, Seq<char>> {
    match kdl_parse_of(text) {
        Err(m) => Err(m),
        Ok(ns) => {
            if nodes_exceed(ns, text.len() as int) {
                Err(err_too_deep())
            } else {
                spec_build_presets(ns, 0, Seq::empty())
            }
        },
    }
}

/// Parses configuration text into the name-sorted preset list: the KDL
/// reader turns the text into configuration nodes, and `build_presets`
/// does the rest, so the result is exactly `spec_parse_config` of the
/// text. A successful result is additionally stated to be sorted by name
/// with no duplicate, to give every window a root layout of size 100,
/// and to hold no empty split.
pub fn parse_config(doc_str: &str) -> (r: Result<Vec<Preset>, String>)
    ensures
        match r {
            Ok(v) => spec_parse_config(doc_str@) == Ok::<Seq<PresetV>, Seq<char>>(presets_view(v)),
            Err(e) => spec_parse_config(doc_str@) matches Err(m) && e@ == m,
        },
        r matches Ok(v) ==> {
            &&& presets_sorted(presets_view(v))
            &&& forall|k: int|
                0 <= k < presets_view(v).len() ==> preset_roots_100(#[trigger] presets_view(v)[k])
            &&& forall|k: int|
                0 <= k < presets_view(v).len() ==> windows_splits_nonempty(
                    (#[trigger] presets_view(v)[k]).windows,
                    0,
                )
        },
{
    let nodes = match crate::kdl_bridge::read_config_nodes(doc_str) {
        Ok(ns) => ns,
        Err(e) => {
            return Err(e);
        },
    };
    let r = build_presets(&nodes);
    proof {
        if r is Ok {
            let ns = config_views(nodes, 0);
            lemma_build_roots(ns, 0, Seq::empty());
            lemma_build_nonempty(ns, 0, Seq::empty());
            assert(spec_build_presets(ns, 0, Seq::empty()) == Ok::<Seq<PresetV>, Seq<char>>(
                presets_view(r->Ok_0),
            ));
        }
    }
    r
}

/// Sums the declared sizes of `cs[i..]`, each taken modulo 256.
fn explicit_total(cs: &Vec<ConfigNode>, i: usize) -> (t: u128)
    requires
        i <= cs.len(),
    ensures
        t == spec_explicit_total(config_views(*cs, 0), i as int),
    decreases cs.len() - i,
{
    proof {
        lemma_config_views(*cs, 0);
        lemma_explicit_total_bounds(config_views(*cs, 0), i as int);
        if i < cs.len() {
            lemma_explicit_total_bounds(config_views(*cs, 0), i + 1int);
        }
    }
    if i == cs.len() {
        0
    } else {
        let own: u8 = match &cs[i].prop_size {
            Option::Some(p) => trunc_size(*p),
            Option::None => 0,
        };
        own as u128 + explicit_total(cs, i + 1)
    }
}

/// Counts the children of `cs[i..]` that declare no size.
fn missing_count(cs: &Vec<ConfigNode>, i: usize) -> (c: usize)
    requires
        i <= cs.len(),
    ensures
        c == spec_missing_count(config_views(*cs, 0), i as int),
    decreases cs.len() - i,
{
    proof {
        lemma_config_views(*cs, 0);
        lemma_explicit_total_bounds(config_views(*cs, 0), i as int);
        if i < cs.len() {
            lemma_explicit_total_bounds(config_views(*cs, 0), i + 1int);
        }
    }
    if i == cs.len() {
        0
    } else {
        let own: usize = if cs[i].prop_size.is_none() {
            1
        } else {
            0
        };
        own + missing_count(cs, i + 1)
    }
}

} // verus!
