//! The layout materializer: turning a preset into the ordered sequence of
//! backend operations that builds it live.
//!
//! The backend's only geometry primitive is a binary split of one pane,
//! parameterized by the percentage the new pane receives. An N-ary split
//! with sizes `s_1..s_n` becomes `n-1` binary splits: child `i` is
//! materialized into the current pane, the pane is then split so that the
//! new pane receives `round((remaining - s_i) / remaining * 100)` percent
//! of it, and the new pane becomes current; the last child inherits the
//! final pane with no further split.
//!
//! Operations name panes by slot: slot numbers count the panes the run
//! creates, in order. Opening a window (renaming the session's implicit
//! first window, or creating a later one) allocates the slot of that
//! window's initial pane; each pane split allocates the slot of the pane
//! it creates.

use crate::model::{
    layout_views, lemma_layout_views, lemma_sizes_sum_bound, sizes_sum, windows_view, LayoutNode,
    LayoutV, Preset, PresetV, SplitDirection, Window, WindowV,
};
use vstd::prelude::*;
use vstd::string::*;

verus! {

broadcast use vstd::std_specs::vec::axiom_vec_index_decreases;

/// One operation against the multiplexer backend. `target` fields are
/// pane slots: indices into the panes the run has created so far.
#[derive(Debug)]
pub enum BackendOp {
    /// Create the detached session. Its first window and pane come with it.
    CreateSession { name: String },
    /// Rename the session's implicit first window; allocates the slot of
    /// that window's initial pane.
    RenameWindow { session: String, name: String },
    /// Create a further window; allocates the slot of its initial pane.
    NewWindow { session: String, name: String },
    /// Split the target pane; the new pane receives `percentage` percent
    /// and gets the next slot.
    SplitPane { target: usize, direction: SplitDirection, percentage: u8 },
    /// Send `text`, followed by an activation keystroke, to the target pane.
    SendText { target: usize, text: String },
}

/// The mathematical shape of a `BackendOp`.
pub enum OpV {
    CreateSession { name: Seq<char> },
    RenameWindow { session: Seq<char>, name: Seq<char> },
    NewWindow { session: Seq<char>, name: Seq<char> },
    SplitPane { target: usize, direction: SplitDirection, percentage: u8 },
    SendText { target: usize, text: Seq<char> },
}

impl BackendOp {
    pub open spec fn view(&self) -> OpV {
        match self {
            BackendOp::CreateSession { name } => OpV::CreateSession { name: name@ },
            BackendOp::RenameWindow { session, name } => OpV::RenameWindow {
                session: session@,
                name: name@,
            },
            BackendOp::NewWindow { session, name } => OpV::NewWindow {
                session: session@,
                name: name@,
            },
            BackendOp::SplitPane { target, direction, percentage } => OpV::SplitPane {
                target: *target,
                direction: *direction,
                percentage: *percentage,
            },
            BackendOp::SendText { target, text } => OpV::SendText { target: *target, text: text@ },
        }
    }
}

/// The views of a list of operations.
pub open spec fn op_views(v: Vec<BackendOp>) -> Seq<OpV> {
    Seq::new(v.len() as nat, |i: int| v[i]@)
}

/// The percentage handed to the backend for one binary split: the share
/// of the current pane that the new pane receives, so that the current
/// pane keeps `s` of the `remaining` weight. Rounded half away from
/// zero, clamped into 0..=100, and zero when nothing remains.
pub open spec fn split_pct(remaining: int, s: int) -> u8 {
    if remaining <= 0 {
        0
    } else {
        let p = ((remaining - s) * 200 + remaining) / (2 * remaining);
        if p > 100 {
            100
        } else if p < 0 {
            0
        } else {
            p as u8
        }
    }
}

/// The operations a pane leaf issues into its pane: change into its
/// working directory when it has one, then run its command when it has
/// one.
pub open spec fn pane_ops(cwd: Option<Seq<char>>, command: Option<Seq<char>>, cur: usize) -> Seq<
    OpV,
> {
    (match cwd {
        Option::Some(path) => seq![OpV::SendText { target: cur, text: "cd "@ + path }],
        Option::None => Seq::empty(),
    }) + (match command {
        Option::Some(c) => seq![OpV::SendText { target: cur, text: c }],
        Option::None => Seq::empty(),
    })
}

/// The operations that materialize one layout node into pane slot `cur`,
/// with `next` the next free slot, and the next free slot afterwards.
pub open spec fn spec_plan_node(node: LayoutV, cur: usize, next: int) -> (Seq<OpV>, int)
    decreases node, 0nat,
{
    match node {
        LayoutV::Pane { cwd, command, .. } => (pane_ops(cwd, command, cur), next),
        LayoutV::Split { direction, children, .. } => spec_plan_children(
            children,
            direction,
            cur,
            next,
            sizes_sum(children, 0),
            0,
        ),
    }
}

/// The operations for a split's children from position `i` on: child `i`
/// into the current pane, one split whose new pane becomes current, and
/// so on; the last child takes the current pane as it is.
pub open spec fn spec_plan_children(
    cs: Seq<LayoutV>,
    dir: SplitDirection,
    cur: usize,
    next: int,
    remaining: int,
    i: int,
) -> (Seq<OpV>, int)
    decreases cs, cs.len() - i, 1nat,
{
    if 0 <= i < cs.len() {
        if i == cs.len() - 1 {
            spec_plan_node(cs[i], cur, next)
        } else {
            let (ops1, next1) = spec_plan_node(cs[i], cur, next);
            let split_op = OpV::SplitPane {
                target: cur,
                direction: dir,
                percentage: split_pct(remaining, cs[i].size() as int),
            };
            let (ops2, next2) = spec_plan_children(
                cs,
                dir,
                next1 as usize,
                next1 + 1,
                remaining - cs[i].size(),
                i + 1,
            );
            (ops1 + seq![split_op] + ops2, next2)
        }
    } else {
        (Seq::empty(), next)
    }
}

/// The operations for one window: open it (rename the implicit first
/// window, or create a later one), which allocates its initial pane's
/// slot, then materialize its layout into that pane.
pub open spec fn spec_plan_window(w: WindowV, first: bool, session: Seq<char>, next: int) -> (
    Seq<OpV>,
    int,
) {
    let open_op = if first {
        OpV::RenameWindow { session, name: w.name }
    } else {
        OpV::NewWindow { session, name: w.name }
    };
    let r = spec_plan_node(w.layout, next as usize, next + 1);
    (seq![open_op] + r.0, r.1)
}

/// The operations for the windows from position `i` on.
pub open spec fn spec_plan_windows(ws: Seq<WindowV>, session: Seq<char>, i: int, next: int) -> (
    Seq<OpV>,
    int,
)
    decreases ws.len() - i,
{
    if 0 <= i < ws.len() {
        let r1 = spec_plan_window(ws[i], i == 0, session, next);
        let r2 = spec_plan_windows(ws, session, i + 1, r1.1);
        (r1.0 + r2.0, r2.1)
    } else {
        (Seq::empty(), next)
    }
}

/// The whole materialization plan of a preset: create the session, then
/// its windows in order, the first reusing the implicit window.
pub open spec fn spec_plan_preset(p: PresetV) -> Seq<OpV> {
    seq![OpV::CreateSession { name: p.name }] + spec_plan_windows(p.windows, p.name, 0, 0).0
}

/// Whether an operation allocates a pane slot.
pub open spec fn op_allocates(op: OpV) -> bool {
    match op {
        OpV::RenameWindow { .. } => true,
        OpV::NewWindow { .. } => true,
        OpV::SplitPane { .. } => true,
        _ => false,
    }
}

/// How many pane slots the operations allocate.
pub open spec fn alloc_count(ops: Seq<OpV>) -> int
    decreases ops.len(),
{
    if ops.len() == 0 {
        0
    } else {
        alloc_count(ops.drop_last()) + (if op_allocates(ops.last()) {
            1int
        } else {
            0int
        })
    }
}

pub proof fn lemma_alloc_count_nonneg(ops: Seq<OpV>)
    ensures
        0 <= alloc_count(ops) <= ops.len(),
    decreases ops.len(),
{
    if ops.len() > 0 {
        lemma_alloc_count_nonneg(ops.drop_last());
    }
}

pub proof fn lemma_alloc_count_singleton(op: OpV)
    ensures
        alloc_count(seq![op]) == (if op_allocates(op) {
            1int
        } else {
            0int
        }),
{
    reveal_with_fuel(alloc_count, 3);
    assert(seq![op].drop_last() =~= Seq::<OpV>::empty());
}

pub proof fn lemma_alloc_count_concat(a: Seq<OpV>, b: Seq<OpV>)
    ensures
        alloc_count(a + b) == alloc_count(a) + alloc_count(b),
    decreases b.len(),
{
    if b.len() == 0 {
        assert(a + b =~= a);
    } else {
        lemma_alloc_count_concat(a, b.drop_last());
        assert((a + b).drop_last() =~= a + b.drop_last());
        assert((a + b).last() == b.last());
    }
}

/// Whether an operation's pane slot exists among `bound` allocated slots.
pub open spec fn op_target_ok(op: OpV, bound: int) -> bool {
    match op {
        OpV::SplitPane { target, .. } => (target as int) < bound,
        OpV::SendText { target, .. } => (target as int) < bound,
        _ => true,
    }
}

/// Every operation of the segment targets a slot allocated before it,
/// counting from `base` slots already allocated when the segment starts.
pub open spec fn seg_wf(ops: Seq<OpV>, base: int) -> bool {
    forall|k: int|
        0 <= k < ops.len() ==> op_target_ok(#[trigger] ops[k], base + alloc_count(ops.take(k)))
}

/// Every operation of the plan targets a pane slot allocated by an
/// earlier operation.
pub open spec fn plan_wf(plan: Seq<OpV>) -> bool {
    seg_wf(plan, 0)
}

/// Well-formed segments compose.
pub proof fn lemma_seg_wf_concat(a: Seq<OpV>, b: Seq<OpV>, base: int)
    requires
        seg_wf(a, base),
        seg_wf(b, base + alloc_count(a)),
    ensures
        seg_wf(a + b, base),
{
    assert forall|k: int| 0 <= k < (a + b).len() implies op_target_ok(
        #[trigger] (a + b)[k],
        base + alloc_count((a + b).take(k)),
    ) by {
        if k < a.len() {
            assert((a + b).take(k) =~= a.take(k));
            assert((a + b)[k] == a[k]);
        } else {
            assert((a + b)[k] == b[k - a.len()]);
            assert((a + b).take(k) =~= a + b.take(k - a.len()));
            lemma_alloc_count_concat(a, b.take(k - a.len()));
        }
    }
}

proof fn lemma_push_views(before: Vec<BackendOp>, after: Vec<BackendOp>, op: BackendOp)
    requires
        after@ == before@.push(op),
    ensures
        op_views(after) == op_views(before) + seq![op@],
        alloc_count(op_views(after)) == alloc_count(op_views(before)) + (if op_allocates(op@) {
            1int
        } else {
            0int
        }),
{
    assert(op_views(after) =~= op_views(before) + seq![op@]);
    assert((op_views(before) + seq![op@]).drop_last() =~= op_views(before));
}

/// How many pane leaves a layout tree has.
pub open spec fn leaf_count(node: LayoutV) -> int
    decreases node, 0nat,
{
    match node {
        LayoutV::Pane { .. } => 1,
        LayoutV::Split { children, .. } => leaves_sum(children, 0),
    }
}

pub open spec fn leaves_sum(cs: Seq<LayoutV>, i: int) -> int
    decreases cs, cs.len() - i, 1nat,
{
    if 0 <= i < cs.len() {
        leaf_count(cs[i]) + leaves_sum(cs, i + 1)
    } else {
        0
    }
}

/// Every split in the tree has at least one child.
pub open spec fn splits_nonempty(node: LayoutV) -> bool
    decreases node, 0nat,
{
    match node {
        LayoutV::Pane { .. } => true,
        LayoutV::Split { children, .. } => children.len() > 0 && all_splits_nonempty(children, 0),
    }
}

pub open spec fn all_splits_nonempty(cs: Seq<LayoutV>, i: int) -> bool
    decreases cs, cs.len() - i, 1nat,
{
    if 0 <= i < cs.len() {
        splits_nonempty(cs[i]) && all_splits_nonempty(cs, i + 1)
    } else {
        true
    }
}

proof fn lemma_pane_ops_alloc(cwd: Option<Seq<char>>, command: Option<Seq<char>>, cur: usize)
    ensures
        alloc_count(pane_ops(cwd, command, cur)) == 0,
{
    let a: Seq<OpV> = match cwd {
        Option::Some(path) => seq![OpV::SendText { target: cur, text: "cd "@ + path }],
        Option::None => Seq::empty(),
    };
    let b: Seq<OpV> = match command {
        Option::Some(c) => seq![OpV::SendText { target: cur, text: c }],
        Option::None => Seq::empty(),
    };
    assert(pane_ops(cwd, command, cur) == a + b);
    lemma_alloc_count_concat(a, b);
    match cwd {
        Option::Some(path) => {
            lemma_alloc_count_singleton(OpV::SendText { target: cur, text: "cd "@ + path });
        },
        Option::None => {},
    }
    match command {
        Option::Some(c) => {
            lemma_alloc_count_singleton(OpV::SendText { target: cur, text: c });
        },
        Option::None => {},
    }
}

/// Materializing a layout into an existing pane creates exactly one
/// pane per pane leaf beyond the one it starts in: a split of `n`
/// children issues its `n - 1` binary splits and nothing more, however
/// the splits nest.
pub proof fn lemma_plan_node_allocs(node: LayoutV, cur: usize, next: int)
    requires
        splits_nonempty(node),
    ensures
        alloc_count(spec_plan_node(node, cur, next).0) == leaf_count(node) - 1,
    decreases node, 0nat,
{
    match node {
        LayoutV::Pane { cwd, command, .. } => {
            lemma_pane_ops_alloc(cwd, command, cur);
        },
        LayoutV::Split { direction, children, .. } => {
            lemma_plan_children_allocs(children, direction, cur, next, sizes_sum(children, 0), 0);
        },
    }
}

proof fn lemma_plan_children_allocs(
    cs: Seq<LayoutV>,
    dir: SplitDirection,
    cur: usize,
    next: int,
    remaining: int,
    i: int,
)
    requires
        0 <= i < cs.len(),
        all_splits_nonempty(cs, i),
    ensures
        alloc_count(spec_plan_children(cs, dir, cur, next, remaining, i).0) == leaves_sum(cs, i)
            - 1,
    decreases cs, cs.len() - i, 1nat,
{
    if i == cs.len() - 1 {
        lemma_plan_node_allocs(cs[i], cur, next);
        assert(leaves_sum(cs, i + 1) == 0);
    } else {
        let r1 = spec_plan_node(cs[i], cur, next);
        let split_op = OpV::SplitPane {
            target: cur,
            direction: dir,
            percentage: split_pct(remaining, cs[i].size() as int),
        };
        let r2 = spec_plan_children(
            cs,
            dir,
            r1.1 as usize,
            r1.1 + 1,
            remaining - cs[i].size(),
            i + 1,
        );
        lemma_plan_node_allocs(cs[i], cur, next);
        lemma_plan_children_allocs(cs, dir, r1.1 as usize, r1.1 + 1, remaining - cs[i].size(), i + 1);
        lemma_alloc_count_singleton(split_op);
        lemma_alloc_count_concat(r1.0, seq![split_op]);
        lemma_alloc_count_concat(r1.0 + seq![split_op], r2.0);
    }
}

/// How many pane leaves the windows from position `i` on hold together.
pub open spec fn windows_leaves(ws: Seq<WindowV>, i: int) -> int
    decreases ws.len() - i,
{
    if 0 <= i < ws.len() {
        leaf_count(ws[i].layout) + windows_leaves(ws, i + 1)
    } else {
        0
    }
}

pub open spec fn windows_splits_nonempty(ws: Seq<WindowV>, i: int) -> bool
    decreases ws.len() - i,
{
    if 0 <= i < ws.len() {
        splits_nonempty(ws[i].layout) && windows_splits_nonempty(ws, i + 1)
    } else {
        true
    }
}

proof fn lemma_plan_windows_allocs(ws: Seq<WindowV>, session: Seq<char>, i: int, next: int)
    requires
        0 <= i <= ws.len(),
        windows_splits_nonempty(ws, i),
    ensures
        alloc_count(spec_plan_windows(ws, session, i, next).0) == windows_leaves(ws, i),
    decreases ws.len() - i,
{
    if i < ws.len() {
        let r1 = spec_plan_window(ws[i], i == 0, session, next);
        let r2 = spec_plan_windows(ws, session, i + 1, r1.1);
        let open_op = if i == 0 {
            OpV::RenameWindow { session, name: ws[i].name }
        } else {
            OpV::NewWindow { session, name: ws[i].name }
        };
        let node_ops = spec_plan_node(ws[i].layout, next as usize, next + 1).0;
        lemma_plan_node_allocs(ws[i].layout, next as usize, next + 1);
        lemma_alloc_count_singleton(open_op);
        lemma_alloc_count_concat(seq![open_op], node_ops);
        lemma_plan_windows_allocs(ws, session, i + 1, r1.1);
        lemma_alloc_count_concat(r1.0, r2.0);
    }
}

/// A preset's materialization creates exactly one pane per pane leaf of
/// the preset: each window's opening operation claims that window's
/// initial pane, and every further pane comes from exactly one binary
/// split.
pub proof fn lemma_plan_preset_allocs(p: PresetV)
    requires
        windows_splits_nonempty(p.windows, 0),
    ensures
        alloc_count(spec_plan_preset(p)) == windows_leaves(p.windows, 0),
{
    let create = OpV::CreateSession { name: p.name };
    let ws_ops = spec_plan_windows(p.windows, p.name, 0, 0).0;
    lemma_plan_windows_allocs(p.windows, p.name, 0, 0);
    lemma_alloc_count_singleton(create);
    lemma_alloc_count_concat(seq![create], ws_ops);
}

/// A pane leaf's operations allocate nothing and only target the pane's
/// own slot.
proof fn lemma_pane_ops_wf(cwd: Option<Seq<char>>, command: Option<Seq<char>>, cur: usize, base: int)
    requires
        (cur as int) < base,
    ensures
        seg_wf(pane_ops(cwd, command, cur), base),
        alloc_count(pane_ops(cwd, command, cur)) == 0,
{
    let ops = pane_ops(cwd, command, cur);
    let a: Seq<OpV> = match cwd {
        Option::Some(path) => seq![OpV::SendText { target: cur, text: "cd "@ + path }],
        Option::None => Seq::empty(),
    };
    let b: Seq<OpV> = match command {
        Option::Some(c) => seq![OpV::SendText { target: cur, text: c }],
        Option::None => Seq::empty(),
    };
    assert(ops == a + b);
    lemma_alloc_count_concat(a, b);
    assert(alloc_count(a) == 0) by {
        match cwd {
            Option::Some(path) => {
                lemma_alloc_count_singleton(OpV::SendText { target: cur, text: "cd "@ + path });
            },
            Option::None => {},
        }
    }
    assert(alloc_count(b) == 0) by {
        match command {
            Option::Some(c) => {
                lemma_alloc_count_singleton(OpV::SendText { target: cur, text: c });
            },
            Option::None => {},
        }
    }
    assert forall|k: int| 0 <= k < ops.len() implies op_target_ok(
        #[trigger] ops[k],
        base + alloc_count(ops.take(k)),
    ) by {
        lemma_alloc_count_nonneg(ops.take(k));
        match (cwd, command) {
            (Option::Some(p), Option::Some(c)) => {
                assert(ops[0] == OpV::SendText { target: cur, text: "cd "@ + p });
                assert(ops[1] == OpV::SendText { target: cur, text: c });
            },
            (Option::Some(p), Option::None) => {
                assert(ops[0] == OpV::SendText { target: cur, text: "cd "@ + p });
            },
            (Option::None, Option::Some(c)) => {
                assert(ops[0] == OpV::SendText { target: cur, text: c });
            },
            (Option::None, Option::None) => {},
        }
    }
}

/// Computes the split percentage for one binary split.
fn split_pct_exec(remaining: u128, s: u8) -> (p: u8)
    requires
        s as int <= remaining as int,
        remaining < 0x1000000000000000000,
    ensures
        p == split_pct(remaining as int, s as int),
{
    if remaining == 0 {
        0
    } else {
        let num: u128 = (remaining - s as u128) * 200 + remaining;
        let q: u128 = num / (2 * remaining);
        if q > 100 {
            100
        } else {
            q as u8
        }
    }
}

fn plan_pane(
    out: &mut Vec<BackendOp>,
    cwd: &Option<String>,
    command: &Option<String>,
    cur: usize,
)
    ensures
        op_views(*final(out)) == op_views(*old(out)) + pane_ops(
            cwd.deep_view(),
            command.deep_view(),
            cur,
        ),
        alloc_count(op_views(*final(out))) == alloc_count(op_views(*old(out))),
{
    let ghost base = op_views(*out);
    match cwd {
        Option::Some(path) => {
            let mut text = String::from_str("cd ");
            text.append(path.as_str());
            let op = BackendOp::SendText { target: cur, text };
            let ghost before = *out;
            out.push(op);
            proof {
                lemma_push_views(before, *out, op);
            }
        },
        Option::None => {},
    }
    match command {
        Option::Some(c) => {
            let op = BackendOp::SendText { target: cur, text: c.clone() };
            let ghost before = *out;
            out.push(op);
            proof {
                lemma_push_views(before, *out, op);
            }
        },
        Option::None => {},
    }
    proof {
        assert(op_views(*out) =~= base + pane_ops(cwd.deep_view(), command.deep_view(), cur));
        lemma_alloc_count_concat(base, pane_ops(cwd.deep_view(), command.deep_view(), cur));
        assert(alloc_count(pane_ops(cwd.deep_view(), command.deep_view(), cur)) == 0) by {
            let ops = pane_ops(cwd.deep_view(), command.deep_view(), cur);
            if ops.len() > 0 {
                assert(!op_allocates(ops.last()));
                if ops.len() > 1 {
                    assert(!op_allocates(ops.drop_last().last()));
                    assert(ops.drop_last().drop_last() =~= Seq::<OpV>::empty());
                }
                if ops.len() == 1 {
                    assert(ops.drop_last() =~= Seq::<OpV>::empty());
                }
            }
        }
    }
}

/// Appends the operations that materialize `node` into pane slot `cur`,
/// `next` being the next free slot; returns the next free slot after.
fn plan_node(out: &mut Vec<BackendOp>, node: &LayoutNode, cur: usize, next: usize) -> (r: usize)
    requires
        (cur as int) < next as int,
        next as int <= alloc_count(op_views(*old(out))),
    ensures
        ({
            let sr = spec_plan_node(node@, cur, next as int);
            &&& op_views(*final(out)) == op_views(*old(out)) + sr.0
            &&& r as int == sr.1
            &&& next <= r
            &&& r as int == next as int + alloc_count(sr.0)
            &&& seg_wf(sr.0, next as int)
            &&& r as int <= alloc_count(op_views(*final(out)))
        }),
    decreases node, 0nat, 0nat,
{
    match node {
        LayoutNode::Pane { cwd, command, .. } => {
            plan_pane(out, cwd, command, cur);
            proof {
                lemma_pane_ops_wf(cwd.deep_view(), command.deep_view(), cur, next as int);
            }
            next
        },
        LayoutNode::Split { direction, children, .. } => {
            proof {
                lemma_layout_views(*children, 0);
                lemma_sizes_sum_bound(layout_views(*children, 0), 0);
            }
            let remaining = crate::model::sum_sizes(children, 0);
            plan_children(out, children, *direction, cur, next, remaining, 0)
        },
    }
}

/// Appends the operations for a split's children from position `i` on.
fn plan_children(
    out: &mut Vec<BackendOp>,
    cs: &Vec<LayoutNode>,
    dir: SplitDirection,
    cur: usize,
    next: usize,
    remaining: u128,
    i: usize,
) -> (r: usize)
    requires
        i <= cs.len(),
        (cur as int) < next as int,
        next as int <= alloc_count(op_views(*old(out))),
        remaining == sizes_sum(layout_views(*cs, 0), i as int),
    ensures
        ({
            let sr = spec_plan_children(
                layout_views(*cs, 0),
                dir,
                cur,
                next as int,
                remaining as int,
                i as int,
            );
            &&& op_views(*final(out)) == op_views(*old(out)) + sr.0
            &&& r as int == sr.1
            &&& next <= r
            &&& r as int == next as int + alloc_count(sr.0)
            &&& seg_wf(sr.0, next as int)
            &&& r as int <= alloc_count(op_views(*final(out)))
        }),
    decreases cs, cs.len() - i, 1nat,
{
    proof {
        lemma_layout_views(*cs, 0);
        lemma_sizes_sum_bound(layout_views(*cs, 0), i as int);
        if i < cs.len() {
            lemma_sizes_sum_bound(layout_views(*cs, 0), i + 1int);
        }
        lemma_alloc_count_nonneg(op_views(*out));
    }
    if i >= cs.len() {
        proof {
            assert(op_views(*out) =~= op_views(*out) + Seq::<OpV>::empty());
            assert(alloc_count(Seq::<OpV>::empty()) == 0);
        }
        return next;
    }
    if i == cs.len() - 1 {
        return plan_node(out, &cs[i], cur, next);
    }
    let ghost base = op_views(*out);
    let next1 = plan_node(out, &cs[i], cur, next);
    let s = cs[i].size();
    let pct = split_pct_exec(remaining, s);
    let op = BackendOp::SplitPane { target: cur, direction: dir, percentage: pct };
    let ghost before = *out;
    out.push(op);
    proof {
        lemma_push_views(before, *out, op);
        lemma_alloc_count_nonneg(op_views(*out));
    }
    let next1p = next1 + 1;
    let r = plan_children(out, cs, dir, next1, next1p, remaining - s as u128, i + 1);
    proof {
        let cv = layout_views(*cs, 0);
        let sr1 = spec_plan_node(cv[i as int], cur, next as int);
        let sr2 = spec_plan_children(
            cv,
            dir,
            next1,
            next1 as int + 1,
            remaining as int - s as int,
            i + 1int,
        );
        assert(op_views(*out) =~= base + (sr1.0 + seq![op@] + sr2.0));
        let mid = sr1.0 + seq![op@];
        lemma_alloc_count_singleton(op@);
        lemma_alloc_count_concat(sr1.0, seq![op@]);
        lemma_alloc_count_concat(mid, sr2.0);
        assert(mid + sr2.0 =~= sr1.0 + seq![op@] + sr2.0);
        assert(seg_wf(seq![op@], next as int + alloc_count(sr1.0))) by {
            assert(seq![op@].take(0) =~= Seq::<OpV>::empty());
            lemma_alloc_count_nonneg(sr1.0);
            assert(op_target_ok(op@, next as int + alloc_count(sr1.0)));
            assert(forall|k: int|
                0 <= k < 1 ==> op_target_ok(
                    #[trigger] seq![op@][k],
                    next as int + alloc_count(sr1.0) + alloc_count(seq![op@].take(k)),
                ));
        }
        lemma_seg_wf_concat(sr1.0, seq![op@], next as int);
        lemma_seg_wf_concat(mid, sr2.0, next as int);
    }
    r
}

/// Appends the operations for one window: its opening operation, which
/// allocates its initial pane's slot, then its layout.
fn plan_window(
    out: &mut Vec<BackendOp>,
    w: &Window,
    first: bool,
    session: &str,
    next: usize,
) -> (r: usize)
    requires
        next as int <= alloc_count(op_views(*old(out))),
    ensures
        ({
            let sr = spec_plan_window(w@, first, session@, next as int);
            &&& op_views(*final(out)) == op_views(*old(out)) + sr.0
            &&& r as int == sr.1
            &&& next <= r
            &&& r as int == next as int + alloc_count(sr.0)
            &&& seg_wf(sr.0, next as int)
            &&& r as int <= alloc_count(op_views(*final(out)))
        }),
{
    let ghost base = op_views(*out);
    let op = if first {
        BackendOp::RenameWindow { session: String::from_str(session), name: w.name.clone() }
    } else {
        BackendOp::NewWindow { session: String::from_str(session), name: w.name.clone() }
    };
    let ghost before = *out;
    out.push(op);
    proof {
        lemma_push_views(before, *out, op);
        lemma_alloc_count_nonneg(op_views(*out));
    }
    let r = plan_node(out, &w.layout, next, next + 1);
    proof {
        let sr = spec_plan_node(w@.layout, next, next as int + 1);
        assert(op_views(*out) =~= base + (seq![op@] + sr.0));
        lemma_alloc_count_singleton(op@);
        lemma_alloc_count_concat(seq![op@], sr.0);
        assert(seg_wf(seq![op@], next as int)) by {
            assert(forall|k: int|
                0 <= k < 1 ==> op_target_ok(
                    #[trigger] seq![op@][k],
                    next as int + alloc_count(seq![op@].take(k)),
                ));
        }
        lemma_seg_wf_concat(seq![op@], sr.0, next as int);
    }
    r
}

/// Appends the operations for the windows from position `i` on.
fn plan_windows(
    out: &mut Vec<BackendOp>,
    ws: &Vec<Window>,
    session: &str,
    i: usize,
    next: usize,
) -> (r: usize)
    requires
        i <= ws.len(),
        next as int <= alloc_count(op_views(*old(out))),
    ensures
        ({
            let sr = spec_plan_windows(windows_view(*ws), session@, i as int, next as int);
            &&& op_views(*final(out)) == op_views(*old(out)) + sr.0
            &&& r as int == sr.1
            &&& next <= r
            &&& r as int == next as int + alloc_count(sr.0)
            &&& seg_wf(sr.0, next as int)
            &&& r as int <= alloc_count(op_views(*final(out)))
        }),
    decreases ws.len() - i,
{
    if i >= ws.len() {
        proof {
            assert(op_views(*out) =~= op_views(*out) + Seq::<OpV>::empty());
            assert(alloc_count(Seq::<OpV>::empty()) == 0);
        }
        return next;
    }
    let ghost base = op_views(*out);
    let next1 = plan_window(out, &ws[i], i == 0, session, next);
    let r = plan_windows(out, ws, session, i + 1, next1);
    proof {
        let wv = windows_view(*ws);
        let sr1 = spec_plan_window(wv[i as int], i == 0, session@, next as int);
        let sr2 = spec_plan_windows(wv, session@, i + 1int, next1 as int);
        assert(op_views(*out) =~= base + (sr1.0 + sr2.0));
        lemma_alloc_count_concat(sr1.0, sr2.0);
        lemma_seg_wf_concat(sr1.0, sr2.0, next as int);
    }
    r
}

/// The full materialization plan of a preset: the ordered backend
/// operations that build its session, windows and panes, with every pane
/// split carrying the ratio rule's percentage.
pub fn spawn_preset(preset: &Preset) -> (plan: Vec<BackendOp>)
    ensures
        op_views(plan) == spec_plan_preset(preset@),
        plan_wf(op_views(plan)),
{
    let mut out: Vec<BackendOp> = Vec::new();
    let op = BackendOp::CreateSession { name: preset.name.clone() };
    let ghost empty_out = out;
    out.push(op);
    proof {
        lemma_push_views(empty_out, out, op);
        assert(op_views(empty_out) =~= Seq::<OpV>::empty());
        assert(op_views(out) =~= seq![op@]);
        lemma_alloc_count_singleton(op@);
    }
    let _last = plan_windows(&mut out, &preset.windows, preset.name.as_str(), 0, 0);
    proof {
        let sr = spec_plan_windows(windows_view(preset.windows), preset.name@, 0, 0);
        assert(op_views(out) =~= seq![op@] + sr.0);
        assert(seg_wf(seq![op@], 0)) by {
            assert(forall|k: int|
                0 <= k < 1 ==> op_target_ok(
                    #[trigger] seq![op@][k],
                    0 + alloc_count(seq![op@].take(k)),
                ));
        }
        lemma_seg_wf_concat(seq![op@], sr.0, 0);
    }
    out
}

} // verus!
