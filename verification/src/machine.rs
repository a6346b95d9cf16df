//! Driving a materialization plan against the backend, one operation at
//! a time: the caller performs each offered operation, reports what the
//! backend answered, and the machine decides what comes next. Any
//! reported failure, and any answer whose shape cannot be read, ends the
//! run at once with that error; nothing is rolled back.

use crate::model::{Preset, SplitDirection};
use crate::plan::{
    alloc_count, op_allocates, op_target_ok, op_views, plan_wf, spawn_preset, spec_plan_preset,
    BackendOp, OpV,
};
use crate::strutil::{all_digits, dec_val, parse_usize};
use vstd::prelude::*;
use vstd::string::*;

verus! {

pub open spec fn is_space(c: char) -> bool {
    c == ' ' || c == '\t' || c == '\n' || c == '\r'
}

/// The sequence without its leading spaces.
pub open spec fn trim_start(s: Seq<char>) -> Seq<char>
    decreases s.len(),
{
    if s.len() > 0 && is_space(s[0]) {
        trim_start(s.drop_first())
    } else {
        s
    }
}

/// The sequence without its trailing spaces.
pub open spec fn trim_end(s: Seq<char>) -> Seq<char>
    decreases s.len(),
{
    if s.len() > 0 && is_space(s.last()) {
        trim_end(s.drop_last())
    } else {
        s
    }
}

/// The sequence without leading and trailing spaces (space, tab,
/// newline, carriage return).
pub open spec fn spec_trim(s: Seq<char>) -> Seq<char> {
    trim_end(trim_start(s))
}

/// The position of the first `c` at or after `from`, if any.
pub open spec fn spec_find(s: Seq<char>, c: char, from: int) -> Option<int>
    decreases s.len() - from,
{
    if 0 <= from < s.len() {
        if s[from] == c {
            Option::Some(from)
        } else {
            spec_find(s, c, from + 1)
        }
    } else {
        Option::None
    }
}

/// What reading a backend pane address yields: the trimmed output split
/// at its first `:` into the session, then at the first `.` of the rest
/// into the window and the pane index, a non-empty string of digits.
/// Output without both separators is `Unexpected output`; a bad index is
/// `Parsing error`.
pub open spec fn spec_parse_pane_address(out: Seq<char>) -> Result<
    (Seq<char>, Seq<char>, usize),
    Seq<char>,
> {
    let t = spec_trim(out);
    match spec_find(t, ':', 0) {
        Option::None => Err("Unexpected output"@),
        Option::Some(i) => {
            let sess = t.take(i);
            let rest = t.skip(i + 1);
            match spec_find(rest, '.', 0) {
                Option::None => Err("Unexpected output"@),
                Option::Some(j) => {
                    let win = rest.take(j);
                    let idx = rest.skip(j + 1);
                    if idx.len() > 0 && all_digits(idx) && dec_val(idx) <= usize::MAX {
                        Ok((sess, win, dec_val(idx) as usize))
                    } else {
                        Err("Parsing error"@)
                    }
                },
            }
        },
    }
}

/// Finds the first `c` at or after `from`.
pub fn find_char(s: &str, c: char, from: usize) -> (r: Option<usize>)
    requires
        from <= s@.len(),
    ensures
        match r {
            Option::Some(i) => from <= i < s@.len() && spec_find(s@, c, from as int)
                == Option::Some(i as int),
            Option::None => spec_find(s@, c, from as int) is None,
        },
    decreases s@.len() - from,
{
    let n = s.unicode_len();
    if from == n {
        Option::None
    } else if s.get_char(from) == c {
        Option::Some(from)
    } else {
        find_char(s, c, from + 1)
    }
}

/// Trims leading and trailing spaces.
fn trim(s: &str) -> (r: String)
    ensures
        r@ == spec_trim(s@),
{
    let n = s.unicode_len();
    let mut start: usize = 0;
    proof {
        assert(s@.skip(0) =~= s@);
    }
    while start < n
        invariant
            0 <= start <= n,
            n == s@.len(),
            trim_start(s@) == trim_start(s@.skip(start as int)),
        ensures
            0 <= start <= n,
            n == s@.len(),
            trim_start(s@) == trim_start(s@.skip(start as int)),
            start < n ==> !is_space(s@[start as int]),
        decreases n - start,
    {
        let c = s.get_char(start);
        if !(c == ' ' || c == '\t' || c == '\n' || c == '\r') {
            break ;
        }
        proof {
            assert(s@.skip(start as int).drop_first() =~= s@.skip(start + 1int));
        }
        start = start + 1;
    }
    proof {
        if start < n {
            assert(trim_start(s@.skip(start as int)) == s@.skip(start as int));
        } else {
            assert(s@.skip(start as int).len() == 0);
            assert(trim_start(s@.skip(start as int)) == s@.skip(start as int));
        }
    }
    let mut end: usize = n;
    proof {
        assert(s@.skip(start as int).take(n - start as int) =~= s@.skip(start as int));
    }
    while end > start
        invariant
            start <= end <= n,
            n == s@.len(),
            trim_start(s@) == s@.skip(start as int),
            trim_end(s@.skip(start as int)) == trim_end(
                s@.skip(start as int).take(end - start as int),
            ),
        ensures
            start <= end <= n,
            n == s@.len(),
            trim_start(s@) == s@.skip(start as int),
            trim_end(s@.skip(start as int)) == trim_end(
                s@.skip(start as int).take(end - start as int),
            ),
            end > start ==> !is_space(s@[end - 1int]),
        decreases end,
    {
        let c = s.get_char(end - 1);
        if !(c == ' ' || c == '\t' || c == '\n' || c == '\r') {
            break ;
        }
        proof {
            let seg = s@.skip(start as int).take(end - start as int);
            assert(seg.last() == s@[end - 1int]);
            assert(seg.drop_last() =~= s@.skip(start as int).take(end - 1 - start as int));
        }
        end = end - 1;
    }
    proof {
        let seg = s@.skip(start as int).take(end - start as int);
        if end > start {
            assert(seg.last() == s@[end - 1int]);
            assert(!is_space(seg.last()));
            assert(trim_end(seg) == seg);
        } else {
            assert(seg.len() == 0);
            assert(trim_end(seg) == seg);
        }
    }
    let r = s.substring_char(start, end);
    proof {
        assert(r@ =~= s@.skip(start as int).take(end - start as int));
    }
    String::from_str(r)
}

/// Reads the pane address a backend split reports: `session:window.index`,
/// surrounding spaces ignored.
pub fn parse_pane_address(out: &str) -> (r: Result<(String, String, usize), String>)
    ensures
        match r {
            Ok(p) => spec_parse_pane_address(out@) matches Ok(q) && p.0@ == q.0 && p.1@ == q.1
                && p.2 == q.2,
            Err(e) => spec_parse_pane_address(out@) matches Err(m) && e@ == m,
        },
{
    let t = trim(out);
    let ts = t.as_str();
    let n = ts.unicode_len();
    let i = match find_char(ts, ':', 0) {
        Option::None => {
            return Err(String::from_str("Unexpected output"));
        },
        Option::Some(i) => i,
    };
    let sess = String::from_str(ts.substring_char(0, i));
    let rest = ts.substring_char(i + 1, n);
    proof {
        assert(sess@ =~= spec_trim(out@).take(i as int));
        assert(rest@ =~= spec_trim(out@).skip(i + 1int));
    }
    let rn = rest.unicode_len();
    let j = match find_char(rest, '.', 0) {
        Option::None => {
            return Err(String::from_str("Unexpected output"));
        },
        Option::Some(j) => j,
    };
    let win = String::from_str(rest.substring_char(0, j));
    let idx_str = rest.substring_char(j + 1, rn);
    proof {
        assert(win@ =~= rest@.take(j as int));
        assert(idx_str@ =~= rest@.skip(j + 1int));
    }
    match parse_usize(idx_str) {
        Option::Some(v) => Ok((sess, win, v)),
        Option::None => Err(String::from_str("Parsing error")),
    }
}

/// A concrete pane address: session name, window name, pane index.
/// The backend's textual form is `session:window.index`.
#[derive(Debug)]
pub struct PaneAddr {
    pub session: String,
    pub window: String,
    pub index: usize,
}

pub struct PaneAddrV {
    pub session: Seq<char>,
    pub window: Seq<char>,
    pub index: usize,
}

impl PaneAddr {
    pub open spec fn view(&self) -> PaneAddrV {
        PaneAddrV { session: self.session@, window: self.window@, index: self.index }
    }

    /// A copy of the address.
    pub fn dup(&self) -> (r: PaneAddr)
        ensures
            r@ == self@,
    {
        PaneAddr { session: self.session.clone(), window: self.window.clone(), index: self.index }
    }
}

/// The views of a pane table.
pub open spec fn panes_view(v: Vec<PaneAddr>) -> Seq<PaneAddrV> {
    Seq::new(v.len() as nat, |i: int| v[i]@)
}

/// One operation with its pane slot resolved to a concrete address,
/// ready to hand to the backend.
#[derive(Debug)]
pub enum ResolvedOp {
    CreateSession { name: String },
    RenameWindow { session: String, name: String },
    NewWindow { session: String, name: String },
    SplitPane { target: PaneAddr, direction: SplitDirection, percentage: u8 },
    SendText { target: PaneAddr, text: String },
}

pub enum ResolvedOpV {
    CreateSession { name: Seq<char> },
    RenameWindow { session: Seq<char>, name: Seq<char> },
    NewWindow { session: Seq<char>, name: Seq<char> },
    SplitPane { target: PaneAddrV, direction: SplitDirection, percentage: u8 },
    SendText { target: PaneAddrV, text: Seq<char> },
}

impl ResolvedOp {
    pub open spec fn view(&self) -> ResolvedOpV {
        match self {
            ResolvedOp::CreateSession { name } => ResolvedOpV::CreateSession { name: name@ },
            ResolvedOp::RenameWindow { session, name } => ResolvedOpV::RenameWindow {
                session: session@,
                name: name@,
            },
            ResolvedOp::NewWindow { session, name } => ResolvedOpV::NewWindow {
                session: session@,
                name: name@,
            },
            ResolvedOp::SplitPane { target, direction, percentage } => ResolvedOpV::SplitPane {
                target: target@,
                direction: *direction,
                percentage: *percentage,
            },
            ResolvedOp::SendText { target, text } => ResolvedOpV::SendText {
                target: target@,
                text: text@,
            },
        }
    }
}

/// An operation with its target slot looked up in the pane table.
pub open spec fn resolve_op(op: OpV, panes: Seq<PaneAddrV>) -> ResolvedOpV {
    match op {
        OpV::CreateSession { name } => ResolvedOpV::CreateSession { name },
        OpV::RenameWindow { session, name } => ResolvedOpV::RenameWindow { session, name },
        OpV::NewWindow { session, name } => ResolvedOpV::NewWindow { session, name },
        OpV::SplitPane { target, direction, percentage } => ResolvedOpV::SplitPane {
            target: panes[target as int],
            direction,
            percentage,
        },
        OpV::SendText { target, text } => ResolvedOpV::SendText {
            target: panes[target as int],
            text,
        },
    }
}

/// What acknowledging one operation does to the pane table: opening a
/// window records its initial pane, a successful split records the pane
/// the backend reported, and an unreadable split answer is the error
/// that ends the run.
pub open spec fn spec_step_panes(op: OpV, panes: Seq<PaneAddrV>, output: Seq<char>) -> Result<
    Seq<PaneAddrV>,
    Seq<char>,
> {
    match op {
        OpV::RenameWindow { session, name } => Ok(
            panes.push(PaneAddrV { session, window: name, index: 0 }),
        ),
        OpV::NewWindow { session, name } => Ok(
            panes.push(PaneAddrV { session, window: name, index: 0 }),
        ),
        OpV::SplitPane { .. } => match spec_parse_pane_address(output) {
            Ok(t) => Ok(panes.push(PaneAddrV { session: t.0, window: t.1, index: t.2 })),
            Err(e) => Err(e),
        },
        _ => Ok(panes),
    }
}

proof fn lemma_alloc_take_step(s: Seq<OpV>, i: int)
    requires
        0 <= i < s.len(),
    ensures
        alloc_count(s.take(i + 1)) == alloc_count(s.take(i)) + (if op_allocates(s[i]) {
            1int
        } else {
            0int
        }),
{
    assert(s.take(i + 1).drop_last() =~= s.take(i));
    assert(s.take(i + 1).last() == s[i]);
}

/// One materialization run: the plan, how many of its operations have
/// been acknowledged, the panes created so far, and the failure that
/// ended the run, if one did.
pub struct SpawnRun {
    plan: Vec<BackendOp>,
    next: usize,
    failed: Option<String>,
    panes: Vec<PaneAddr>,
}

impl SpawnRun {
    /// The run's plan.
    pub closed spec fn plan_v(&self) -> Seq<OpV> {
        op_views(self.plan)
    }

    /// How many operations have been acknowledged.
    pub closed spec fn issued(&self) -> int {
        self.next as int
    }

    /// The failure that ended the run, if one did.
    pub closed spec fn failure(&self) -> Option<Seq<char>> {
        match self.failed {
            Option::Some(ref e) => Option::Some(e@),
            Option::None => Option::None,
        }
    }

    /// The panes created so far, in slot order.
    pub closed spec fn panes_v(&self) -> Seq<PaneAddrV> {
        panes_view(self.panes)
    }

    /// The run offers no further operation: it failed, or finished.
    pub open spec fn terminal(&self) -> bool {
        self.failure() is Some || self.issued() == self.plan_v().len()
    }

    /// The machine's invariant: the plan only targets already-created
    /// panes, and the pane table holds exactly the panes the
    /// acknowledged operations created.
    pub closed spec fn wf(&self) -> bool {
        &&& plan_wf(op_views(self.plan))
        &&& self.next <= self.plan.len()
        &&& panes_view(self.panes).len() == alloc_count(
            op_views(self.plan).take(self.next as int),
        )
    }

    /// Begins a run: the plan is the preset's materialization plan, with
    /// nothing acknowledged yet.
    pub fn start(preset: &Preset) -> (m: SpawnRun)
        ensures
            m.wf(),
            m.plan_v() == spec_plan_preset(preset@),
            m.issued() == 0,
            m.failure() is None,
            m.panes_v() == Seq::<PaneAddrV>::empty(),
    {
        let plan = spawn_preset(preset);
        let m = SpawnRun { plan, next: 0, failed: Option::None, panes: Vec::new() };
        proof {
            assert(op_views(m.plan).take(0) =~= Seq::<OpV>::empty());
            assert(alloc_count(Seq::<OpV>::empty()) == 0);
            assert(panes_view(m.panes) =~= Seq::<PaneAddrV>::empty());
        }
        m
    }

    /// The operation to perform now: `None` exactly when the run is
    /// over, whether it failed or finished. Once a failure is reported,
    /// no further operation is ever offered.
    pub fn current_op(&self) -> (r: Option<ResolvedOp>)
        requires
            self.wf(),
        ensures
            match r {
                Option::Some(op) => !self.terminal() && op@ == resolve_op(
                    self.plan_v()[self.issued()],
                    self.panes_v(),
                ),
                Option::None => self.terminal(),
            },
    {
        if self.failed.is_some() {
            return Option::None;
        }
        if self.next >= self.plan.len() {
            return Option::None;
        }
        proof {
            assert(op_target_ok(
                op_views(self.plan)[self.next as int],
                0 + alloc_count(op_views(self.plan).take(self.next as int)),
            ));
        }
        match &self.plan[self.next] {
            BackendOp::CreateSession { name } => Option::Some(
                ResolvedOp::CreateSession { name: name.clone() },
            ),
            BackendOp::RenameWindow { session, name } => Option::Some(
                ResolvedOp::RenameWindow { session: session.clone(), name: name.clone() },
            ),
            BackendOp::NewWindow { session, name } => Option::Some(
                ResolvedOp::NewWindow { session: session.clone(), name: name.clone() },
            ),
            BackendOp::SplitPane { target, direction, percentage } => {
                let t = self.panes[*target].dup();
                Option::Some(
                    ResolvedOp::SplitPane {
                        target: t,
                        direction: *direction,
                        percentage: *percentage,
                    },
                )
            },
            BackendOp::SendText { target, text } => {
                let t = self.panes[*target].dup();
                Option::Some(ResolvedOp::SendText { target: t, text: text.clone() })
            },
        }
    }

    /// Acknowledges the current operation as performed, with what the
    /// backend printed. A split answer that cannot be read as a pane
    /// address fails the run with that error and is reported back.
    pub fn report_ok(&mut self, output: &str) -> (r: Result<(), String>)
        requires
            old(self).wf(),
            !old(self).terminal(),
        ensures
            final(self).wf(),
            final(self).plan_v() == old(self).plan_v(),
            match r {
                Ok(u) => {
                    &&& spec_step_panes(
                        old(self).plan_v()[old(self).issued()],
                        old(self).panes_v(),
                        output@,
                    ) matches Ok(ps)
                    &&& final(self).panes_v() == ps
                    &&& final(self).issued() == old(self).issued() + 1
                    &&& final(self).failure() == old(self).failure()
                },
                Err(e) => {
                    &&& spec_step_panes(
                        old(self).plan_v()[old(self).issued()],
                        old(self).panes_v(),
                        output@,
                    ) matches Err(m)
                    &&& e@ == m
                    &&& final(self).failure() == Option::Some(e@)
                    &&& final(self).issued() == old(self).issued()
                    &&& final(self).panes_v() == old(self).panes_v()
                    &&& final(self).terminal()
                },
            },
    {
        let idx = self.next;
        let ghost plan_seq = op_views(self.plan);
        let ghost old_panes = panes_view(self.panes);
        proof {
            lemma_alloc_take_step(plan_seq, idx as int);
        }
        match &self.plan[idx] {
            BackendOp::RenameWindow { session, name } => {
                let addr = PaneAddr { session: session.clone(), window: name.clone(), index: 0 };
                self.panes.push(addr);
                self.next = idx + 1;
                proof {
                    assert(panes_view(self.panes) =~= old_panes.push(addr@));
                }
                Ok(())
            },
            BackendOp::NewWindow { session, name } => {
                let addr = PaneAddr { session: session.clone(), window: name.clone(), index: 0 };
                self.panes.push(addr);
                self.next = idx + 1;
                proof {
                    assert(panes_view(self.panes) =~= old_panes.push(addr@));
                }
                Ok(())
            },
            BackendOp::SplitPane { .. } => {
                match parse_pane_address(output) {
                    Ok(t) => {
                        let addr = PaneAddr { session: t.0, window: t.1, index: t.2 };
                        self.panes.push(addr);
                        self.next = idx + 1;
                        proof {
                            assert(panes_view(self.panes) =~= old_panes.push(addr@));
                        }
                        Ok(())
                    },
                    Err(e) => {
                        self.failed = Option::Some(e.clone());
                        Err(e)
                    },
                }
            },
            _ => {
                self.next = idx + 1;
                Ok(())
            },
        }
    }

    /// Records that the backend failed the current operation. The run is
    /// terminal from here on: `current_op` offers nothing further, and
    /// the outcome is exactly this error.
    pub fn report_err(&mut self, err: String)
        requires
            old(self).wf(),
        ensures
            final(self).wf(),
            final(self).plan_v() == old(self).plan_v(),
            final(self).issued() == old(self).issued(),
            final(self).panes_v() == old(self).panes_v(),
            final(self).failure() == Option::Some(err@),
            final(self).terminal(),
    {
        self.failed = Option::Some(err);
    }

    /// The run's result: `None` while operations remain, the recorded
    /// error if one ended the run, success once every operation was
    /// acknowledged.
    pub fn outcome(&self) -> (r: Option<Result<(), String>>)
        ensures
            match r {
                Option::None => !self.terminal(),
                Option::Some(Ok(u)) => self.failure() is None && self.issued()
                    == self.plan_v().len(),
                Option::Some(Err(e)) => self.failure() == Option::Some(e@),
            },
    {
        match &self.failed {
            Option::Some(e) => Option::Some(Err(e.clone())),
            Option::None => {
                if self.next == self.plan.len() {
                    Option::Some(Ok(()))
                } else {
                    Option::None
                }
            },
        }
    }
}

/// A failed run stays failed: a run whose failure is recorded is
/// terminal, so no further backend operation is ever attempted after an
/// error, and the error is the run's outcome.
pub proof fn lemma_failure_halts(m: SpawnRun)
    requires
        m.failure() is Some,
    ensures
        m.terminal(),
{
}

} // verus!
