//! The multiplexer command surface: building the exact argument list of
//! each backend invocation, and reading the session listing back.

use crate::machine::spec_find;
use crate::model::{Session, SplitDirection};
use crate::strutil::{dec_str, is_digit, usize_to_string};
use vstd::prelude::*;
use vstd::string::*;

verus! {

/// The views of a list of argument strings.
pub open spec fn args_view(v: Vec<String>) -> Seq<Seq<char>> {
    Seq::new(v.len() as nat, |i: int| v[i]@)
}

fn push_lit(v: &mut Vec<String>, s: &str)
    ensures
        args_view(*final(v)) == args_view(*old(v)).push(s@),
{
    v.push(String::from_str(s));
    proof {
        assert(args_view(*v) =~= args_view(*old(v)).push(s@));
    }
}

/// The arguments of the command that splits a pane: the new pane takes
/// `percentage` percent of the target, along the given axis, and the new
/// pane's address is printed.
pub fn split_window(target: &str, percentage: u8, direction: SplitDirection) -> (r: Vec<String>)
    ensures
        args_view(r) =~= seq![
            "split-window"@,
            "-t"@,
            target@,
            (match direction {
                SplitDirection::Horizontal => "-h"@,
                SplitDirection::Vertical => "-v"@,
            }),
            "-p"@,
            dec_str(percentage as nat),
            "-P"@,
        ],
{
    let mut v: Vec<String> = Vec::new();
    push_lit(&mut v, "split-window");
    push_lit(&mut v, "-t");
    push_lit(&mut v, target);
    match direction {
        SplitDirection::Horizontal => push_lit(&mut v, "-h"),
        SplitDirection::Vertical => push_lit(&mut v, "-v"),
    }
    push_lit(&mut v, "-p");
    let p = usize_to_string(percentage as usize);
    let ghost before = v;
    v.push(p);
    proof {
        assert(args_view(v) =~= args_view(before).push(dec_str(percentage as nat)));
    }
    push_lit(&mut v, "-P");
    v
}

/// The arguments that list the live sessions.
pub fn list_sessions_command() -> (r: Vec<String>)
    ensures
        args_view(r) =~= seq!["list-sessions"@],
{
    let mut v: Vec<String> = Vec::new();
    push_lit(&mut v, "list-sessions");
    v
}

/// The arguments that switch the client to the target session.
pub fn switch_session(target: &str) -> (r: Vec<String>)
    ensures
        args_view(r) =~= seq!["switch-client"@, "-t"@, target@],
{
    let mut v: Vec<String> = Vec::new();
    push_lit(&mut v, "switch-client");
    push_lit(&mut v, "-t");
    push_lit(&mut v, target);
    v
}

/// The arguments that create a detached session: named when a name is
/// given, unnamed otherwise.
pub fn create_session(new_name: &str) -> (r: Vec<String>)
    ensures
        new_name@.len() == 0 ==> args_view(r) =~= seq!["new-session"@, "-d"@],
        new_name@.len() != 0 ==> args_view(r) =~= seq![
            "new-session"@,
            "-s"@,
            new_name@,
            "-d"@,
        ],
{
    let mut v: Vec<String> = Vec::new();
    push_lit(&mut v, "new-session");
    if !new_name.is_empty() {
        push_lit(&mut v, "-s");
        push_lit(&mut v, new_name);
    }
    push_lit(&mut v, "-d");
    v
}

/// The arguments that rename the target session.
pub fn rename_session(target: &str, new_name: &str) -> (r: Vec<String>)
    ensures
        args_view(r) =~= seq!["rename-session"@, "-t"@, target@, new_name@],
{
    let mut v: Vec<String> = Vec::new();
    push_lit(&mut v, "rename-session");
    push_lit(&mut v, "-t");
    push_lit(&mut v, target);
    push_lit(&mut v, new_name);
    v
}

/// The arguments that kill the target session.
pub fn delete_session(target: &str) -> (r: Vec<String>)
    ensures
        args_view(r) =~= seq!["kill-session"@, "-t"@, target@],
{
    let mut v: Vec<String> = Vec::new();
    push_lit(&mut v, "kill-session");
    push_lit(&mut v, "-t");
    push_lit(&mut v, target);
    v
}

/// The arguments that send `text` to the target pane, followed by the
/// activation keystroke.
pub fn send_keys(target: &str, text: &str) -> (r: Vec<String>)
    ensures
        args_view(r) =~= seq!["send-keys"@, "-t"@, target@, text@, "Enter"@],
{
    let mut v: Vec<String> = Vec::new();
    push_lit(&mut v, "send-keys");
    push_lit(&mut v, "-t");
    push_lit(&mut v, target);
    push_lit(&mut v, text);
    push_lit(&mut v, "Enter");
    v
}

/// The arguments that rename one window of a session, addressed by its
/// index within the session.
pub fn rename_window(session: &str, index: usize, new_name: &str) -> (r: Vec<String>)
    ensures
        ({
            let target = session@ + ":"@ + dec_str(index as nat);
            args_view(r) =~= seq!["rename-window"@, "-t"@, target, new_name@]
        }),
{
    let mut target = String::from_str(session);
    target.append(":");
    let idx = usize_to_string(index);
    target.append(idx.as_str());
    let mut v: Vec<String> = Vec::new();
    push_lit(&mut v, "rename-window");
    push_lit(&mut v, "-t");
    let ghost b1 = v;
    v.push(target);
    proof {
        assert(args_view(v) =~= args_view(b1).push(session@ + ":"@ + dec_str(index as nat)));
    }
    push_lit(&mut v, new_name);
    v
}

/// The arguments that create a named window in a session and print the
/// new window's information.
pub fn new_window(session: &str, name: &str) -> (r: Vec<String>)
    ensures
        args_view(r) =~= seq!["new-window"@, "-t"@, session@, "-n"@, name@, "-P"@],
{
    let mut v: Vec<String> = Vec::new();
    push_lit(&mut v, "new-window");
    push_lit(&mut v, "-t");
    push_lit(&mut v, session);
    push_lit(&mut v, "-n");
    push_lit(&mut v, name);
    push_lit(&mut v, "-P");
    v
}

/// The shape of one `Session` as contracts speak of it.
pub struct SessionV {
    pub name: Seq<char>,
    pub windows: Seq<char>,
    pub active: bool,
}

pub open spec fn session_view(s: Session) -> SessionV {
    SessionV { name: s.name@, windows: s.windows@, active: s.active }
}

pub open spec fn sessions_view(v: Vec<Session>) -> Seq<SessionV> {
    Seq::new(v.len() as nat, |i: int| session_view(v[i]))
}

/// The position of the listing's name separator: the first `i >= from`
/// where `": "` follows at least one character and a digit follows it.
pub open spec fn spec_sep_pos(s: Seq<char>, from: int) -> Option<int>
    decreases s.len() - from,
{
    if 1 <= from && from + 2 < s.len() {
        if s[from] == ':' && s[from + 1] == ' ' && is_digit(s[from + 2]) {
            Option::Some(from)
        } else {
            spec_sep_pos(s, from + 1)
        }
    } else {
        Option::None
    }
}

/// The end of the digit run that starts at `from`.
pub open spec fn spec_digits_end(s: Seq<char>, from: int) -> int
    decreases s.len() - from,
{
    if 0 <= from < s.len() && is_digit(s[from]) {
        spec_digits_end(s, from + 1)
    } else {
        from
    }
}

/// Whether the line reports an attached session: it ends in
/// `(attached)`.
pub open spec fn spec_line_active(s: Seq<char>) -> bool {
    s.len() >= 10 && s.skip(s.len() - 10) == "(attached)"@
}

/// What one listing line yields: the session name before the first
/// `": "` that a digit follows, the digit run after it as the window
/// count, and whether the session is attached; a line without such a
/// separator does not parse.
pub open spec fn spec_parse_session_line(s: Seq<char>) -> Result<SessionV, Seq<char>> {
    match spec_sep_pos(s, 1) {
        Option::None => Err("Unexpected output"@),
        Option::Some(i) => Ok(
            SessionV {
                name: s.take(i),
                windows: s.subrange(i + 2, spec_digits_end(s, i + 2)),
                active: spec_line_active(s),
            },
        ),
    }
}

fn sep_pos(s: &str, from: usize) -> (r: Option<usize>)
    requires
        1 <= from <= s@.len(),
    ensures
        match r {
            Option::Some(i) => from <= i && i + 2 < s@.len() && spec_sep_pos(s@, from as int)
                == Option::Some(i as int),
            Option::None => spec_sep_pos(s@, from as int) is None,
        },
    decreases s@.len() - from,
{
    let n = s.unicode_len();
    if n < 3 || from > n - 3 {
        return Option::None;
    }
    if s.get_char(from) == ':' && s.get_char(from + 1) == ' ' {
        let c = s.get_char(from + 2);
        if '0' <= c && c <= '9' {
            return Option::Some(from);
        }
    }
    sep_pos(s, from + 1)
}

fn digits_end(s: &str, from: usize) -> (r: usize)
    requires
        from <= s@.len(),
    ensures
        from <= r <= s@.len(),
        r as int == spec_digits_end(s@, from as int),
    decreases s@.len() - from,
{
    let n = s.unicode_len();
    if from < n {
        let c = s.get_char(from);
        if '0' <= c && c <= '9' {
            return digits_end(s, from + 1);
        }
    }
    from
}

fn line_active(s: &str) -> (r: bool)
    ensures
        r == spec_line_active(s@),
{
    let n = s.unicode_len();
    if n < 10 {
        return false;
    }
    let tail = s.substring_char(n - 10, n);
    proof {
        assert(tail@ =~= s@.skip(s@.len() - 10));
    }
    crate::strutil::str_eq(tail, "(attached)")
}

/// Parses one line of the session listing.
pub fn parse_session_line(line: &str) -> (r: Result<Session, String>)
    ensures
        match r {
            Ok(s) => spec_parse_session_line(line@) matches Ok(v) && session_view(s) == v,
            Err(e) => spec_parse_session_line(line@) matches Err(m) && e@ == m,
        },
{
    if line.unicode_len() < 1 {
        proof {
            assert(spec_sep_pos(line@, 1) is None);
        }
        return Err(String::from_str("Unexpected output"));
    }
    let i = match sep_pos(line, 1) {
        Option::None => {
            return Err(String::from_str("Unexpected output"));
        },
        Option::Some(i) => i,
    };
    let name = String::from_str(line.substring_char(0, i));
    let e = digits_end(line, i + 2);
    let windows = String::from_str(line.substring_char(i + 2, e));
    let active = line_active(line);
    proof {
        assert(name@ =~= line@.take(i as int));
        assert(windows@ =~= line@.subrange(i + 2int, spec_digits_end(line@, i + 2int)));
    }
    Ok(Session { name, windows, active })
}

/// A found position lies between `from` and the end, and holds `c`.
pub proof fn lemma_spec_find_bounds(s: Seq<char>, c: char, from: int)
    requires
        0 <= from,
    ensures
        spec_find(s, c, from) matches Option::Some(i) ==> from <= i < s.len() && s[i] == c,
    decreases s.len() - from,
{
    if from < s.len() && s[from] != c {
        lemma_spec_find_bounds(s, c, from + 1);
    }
}

#[via_fn]
proof fn spec_lines_dec(s: Seq<char>) {
    lemma_spec_find_bounds(s, '\n', 0);
}

/// The listing's lines: split at every newline, a carriage return before
/// a newline dropped, the text after the last newline a final line
/// unless empty.
pub open spec fn spec_lines(s: Seq<char>) -> Seq<Seq<char>>
    decreases s.len(),
    via spec_lines_dec
{
    if s.len() == 0 {
        Seq::empty()
    } else {
        match crate::machine::spec_find(s, '\n', 0) {
            Option::None => seq![s],
            Option::Some(i) => seq![strip_cr(s.take(i))].add(spec_lines(s.skip(i + 1))),
        }
    }
}

/// The line without its trailing carriage return, if it has one.
pub open spec fn strip_cr(l: Seq<char>) -> Seq<char> {
    if l.len() > 0 && l.last() == '\r' {
        l.drop_last()
    } else {
        l
    }
}

/// What the whole listing yields, the first unreadable line winning.
pub open spec fn spec_parse_sessions(lines: Seq<Seq<char>>, i: int) -> Result<
    Seq<SessionV>,
    Seq<char>,
>
    decreases lines.len() - i,
{
    if 0 <= i < lines.len() {
        match spec_parse_session_line(lines[i]) {
            Err(e) => Err(e),
            Ok(s) => match spec_parse_sessions(lines, i + 1) {
                Err(e) => Err(e),
                Ok(t) => Ok(seq![s].add(t)),
            },
        }
    } else {
        Ok(Seq::empty())
    }
}

fn line_of(s: &str, from: usize, to: usize) -> (r: String)
    requires
        from <= to <= s@.len(),
    ensures
        r@ == strip_cr(s@.subrange(from as int, to as int)),
{
    let mut end = to;
    if to > from {
        let c = s.get_char(to - 1);
        if c == '\r' {
            end = to - 1;
        }
    }
    let r = String::from_str(s.substring_char(from, end));
    proof {
        let seg = s@.subrange(from as int, to as int);
        if to > from && s@[to - 1int] == '\r' {
            assert(seg.last() == s@[to - 1int]);
            assert(r@ =~= seg.drop_last());
        } else {
            if to > from {
                assert(seg.last() == s@[to - 1int]);
            }
            assert(r@ =~= seg);
        }
    }
    r
}

/// Parses the backend's session listing, one session per line. The first
/// line that does not fit the listing's shape fails the parse.
pub fn parse_sessions(output: &str) -> (r: Result<Vec<Session>, String>)
    ensures
        match r {
            Ok(v) => spec_parse_sessions(spec_lines(output@), 0) matches Ok(s) && sessions_view(v)
                == s,
            Err(e) => spec_parse_sessions(spec_lines(output@), 0) matches Err(m) && e@ == m,
        },
{
    proof {
        assert(output@.skip(0) =~= output@);
    }
    parse_sessions_from(output, 0)
}

fn parse_sessions_from(output: &str, from: usize) -> (r: Result<Vec<Session>, String>)
    requires
        from <= output@.len(),
    ensures
        match r {
            Ok(v) => spec_parse_sessions(spec_lines(output@.skip(from as int)), 0) matches Ok(s)
                && sessions_view(v) == s,
            Err(e) => spec_parse_sessions(spec_lines(output@.skip(from as int)), 0) matches Err(m)
                && e@ == m,
        },
    decreases output@.len() - from,
{
    let n = output.unicode_len();
    let ghost rest = output@.skip(from as int);
    if from == n {
        let v: Vec<Session> = Vec::new();
        proof {
            assert(rest.len() == 0);
            assert(sessions_view(v) =~= Seq::<SessionV>::empty());
        }
        return Ok(v);
    }
    proof {
        lemma_spec_find_skip(output@, '\n', from as int, from as int);
    }
    match crate::machine::find_char(output, '\n', from) {
        Option::None => {
            // The text after the last newline is the final line, kept as
            // it is: a bare trailing carriage return is not a line ending.
            let l = String::from_str(output.substring_char(from, n));
            proof {
                assert(l@ =~= rest);
                assert(spec_lines(rest) == seq![rest]);
            }
            match parse_session_line(l.as_str()) {
                Err(e) => {
                    proof {
                        assert(spec_lines(rest)[0] == rest);
                    }
                    Err(e)
                },
                Ok(s) => {
                    let mut v: Vec<Session> = Vec::new();
                    v.push(s);
                    proof {
                        let lines = spec_lines(rest);
                        assert(lines[0] == rest);
                        assert(spec_parse_sessions(lines, 1) == Ok::<Seq<SessionV>, Seq<char>>(
                            Seq::empty(),
                        ));
                        assert(sessions_view(v) =~= seq![session_view(s)].add(
                            Seq::<SessionV>::empty(),
                        ));
                    }
                    Ok(v)
                },
            }
        },
        Option::Some(i) => {
            let l = line_of(output, from, i);
            let ghost lines = spec_lines(rest);
            proof {
                assert(rest[i - from as int] == output@[i as int]);
                assert(spec_find(rest, '\n', 0) == Option::Some(i - from as int));
                assert(rest.take(i - from as int) =~= output@.subrange(from as int, i as int));
                assert(rest.skip(i - from + 1int) =~= output@.skip(i + 1int));
                assert(lines == seq![strip_cr(rest.take(i - from as int))].add(
                    spec_lines(output@.skip(i + 1int)),
                ));
                assert(l@ == strip_cr(rest.take(i - from as int)));
                assert(lines[0] == l@);
            }
            match parse_session_line(l.as_str()) {
                Err(e) => Err(e),
                Ok(s) => {
                    match parse_sessions_from(output, i + 1) {
                        Err(e) => {
                            proof {
                                let tail_lines = spec_lines(output@.skip(i + 1int));
                                lemma_parse_sessions_tail(lines, tail_lines);
                            }
                            Err(e)
                        },
                        Ok(mut t) => {
                            let ghost tail_views = sessions_view(t);
                            let ghost before = t;
                            t.insert(0, s);
                            proof {
                                let tail_lines = spec_lines(output@.skip(i + 1int));
                                lemma_parse_sessions_tail(lines, tail_lines);
                                before@.insert_ensures(0, s);
                                assert forall|j: int| 0 <= j < t.len() implies #[trigger]
                                    sessions_view(t)[j] == seq![session_view(s)].add(
                                    tail_views,
                                )[j] by {
                                    if j > 0 {
                                        assert(t@[j] == before@[j - 1]);
                                    }
                                }
                                assert(sessions_view(t) =~= seq![session_view(s)].add(tail_views));
                            }
                            Ok(t)
                        },
                    }
                },
            }
        },
    }
}

/// Dropping the first line shifts the rest of the parse by one.
proof fn lemma_parse_sessions_tail(lines: Seq<Seq<char>>, tail: Seq<Seq<char>>)
    requires
        lines.len() == tail.len() + 1,
        forall|j: int| 0 <= j < tail.len() ==> lines[j + 1] == #[trigger] tail[j],
    ensures
        spec_parse_sessions(lines, 1) == spec_parse_sessions(tail, 0),
    decreases tail.len(),
{
    lemma_parse_sessions_shift(lines, tail, 0);
}

proof fn lemma_parse_sessions_shift(lines: Seq<Seq<char>>, tail: Seq<Seq<char>>, k: int)
    requires
        0 <= k <= tail.len(),
        lines.len() == tail.len() + 1,
        forall|j: int| 0 <= j < tail.len() ==> lines[j + 1] == #[trigger] tail[j],
    ensures
        spec_parse_sessions(lines, k + 1) == spec_parse_sessions(tail, k),
    decreases tail.len() - k,
{
    if k < tail.len() {
        lemma_parse_sessions_shift(lines, tail, k + 1);
    }
}

/// The sessions of `s[i..]` whose `active` flag is `want`, in order.
pub open spec fn spec_part(s: Seq<SessionV>, i: int, want: bool) -> Seq<SessionV>
    decreases s.len() - i,
{
    if 0 <= i < s.len() {
        if s[i].active == want {
            seq![s[i]].add(spec_part(s, i + 1, want))
        } else {
            spec_part(s, i + 1, want)
        }
    } else {
        Seq::empty()
    }
}

fn collect_part(v: &Vec<Session>, want: bool, i: usize) -> (r: Vec<Session>)
    requires
        i <= v.len(),
    ensures
        sessions_view(r) == spec_part(sessions_view(*v), i as int, want),
    decreases v.len() - i,
{
    if i == v.len() {
        let r: Vec<Session> = Vec::new();
        proof {
            assert(sessions_view(r) =~= Seq::<SessionV>::empty());
        }
        r
    } else {
        let mut rest = collect_part(v, want, i + 1);
        if v[i].active == want {
            let ghost tail_views = sessions_view(rest);
            let ghost before = rest;
            let head = v[i].dup();
            let ghost head_view = session_view(head);
            rest.insert(0, head);
            proof {
                before@.insert_ensures(0, head);
                assert forall|j: int| 0 <= j < rest.len() implies #[trigger] sessions_view(rest)[j]
                    == seq![head_view].add(tail_views)[j] by {
                    if j > 0 {
                        assert(rest@[j] == before@[j - 1]);
                    }
                }
                assert(sessions_view(rest) =~= seq![head_view].add(tail_views));
                assert(head_view == sessions_view(*v)[i as int]);
            }
        }
        rest
    }
}

/// Reorders a session listing so the attached sessions come first, the
/// relative order within each part kept.
pub fn sessions_active_first(sessions: &Vec<Session>) -> (r: Vec<Session>)
    ensures
        sessions_view(r) == spec_part(sessions_view(*sessions), 0, true) + spec_part(
            sessions_view(*sessions),
            0,
            false,
        ),
{
    let mut a = collect_part(sessions, true, 0);
    let mut b = collect_part(sessions, false, 0);
    let ghost av = sessions_view(a);
    let ghost bv = sessions_view(b);
    a.append(&mut b);
    proof {
        assert(sessions_view(a) =~= av + bv);
    }
    a
}

/// `spec_find` over a suffix mirrors `spec_find` over the whole string.
proof fn lemma_spec_find_skip(s: Seq<char>, c: char, base: int, from: int)
    requires
        0 <= base <= from <= s.len(),
    ensures
        spec_find(s, c, from) matches Option::Some(i) ==> spec_find(s.skip(base), c, from - base)
            == Option::Some(i - base),
        spec_find(s, c, from) is None ==> spec_find(s.skip(base), c, from - base) is None,
    decreases s.len() - from,
{
    if from < s.len() {
        assert(s.skip(base)[from - base] == s[from]);
        if s[from] != c {
            lemma_spec_find_skip(s, c, base, from + 1);
        }
    }
}

} // verus!
