//! The two layouts of a log line, and the process start and end events that
//! the activity manager reports in its messages.
//!
//! Long form: `MM-DD HH:MM:SS.mmm  OWNER  TID L TAG: MESSAGE`.
//! Brief form: `L/TAG( OWNER): MESSAGE`.
//! A record lies on one line: text that holds a line break is no record.

pub use crate::level::{LogLevel, ParseLogLevelError};
use crate::level::level_or_verbose;
use crate::text::{
    chars_of, class_has, find, find_lit, has_lit, has_newline, has_shape, is_space,
    is_upper, lemma_back, lemma_span, lit_at, no_newline, piece, scan, scan_back, shape_at, span,
    trimmed, CharClass,
};
use vstd::prelude::*;

verus! {

/// A process that started or ended.
pub struct Process {
    pub line_pid: String,
    pub line_package: String,
    pub target: Option<String>,
}

/// One parsed log line.
pub struct LogLine {
    pub level: LogLevel,
    pub tag: String,
    pub owner: String,
    pub message: String,
    pub date: Option<String>,
    pub time: Option<String>,
    pub tid: Option<String>,
}

/// What a `Process` holds, as character sequences.
pub struct ProcessModel {
    pub pid: Seq<char>,
    pub package: Seq<char>,
    pub target: Option<Seq<char>>,
}

/// What a `LogLine` holds, as character sequences.
pub struct LineModel {
    pub level: LogLevel,
    pub tag: Seq<char>,
    pub owner: Seq<char>,
    pub message: Seq<char>,
    pub date: Option<Seq<char>>,
    pub time: Option<Seq<char>>,
    pub tid: Option<Seq<char>>,
}

pub open spec fn opt_text(o: Option<String>) -> Option<Seq<char>> {
    match o {
        Some(s) => Some(s@),
        None => None,
    }
}

impl View for Process {
    type V = ProcessModel;

    open spec fn view(&self) -> ProcessModel {
        ProcessModel {
            pid: self.line_pid@,
            package: self.line_package@,
            target: opt_text(self.target),
        }
    }
}

impl View for LogLine {
    type V = LineModel;

    open spec fn view(&self) -> LineModel {
        LineModel {
            level: self.level,
            tag: self.tag@,
            owner: self.owner@,
            message: self.message@,
            date: opt_text(self.date),
            time: opt_text(self.time),
            tid: opt_text(self.tid),
        }
    }
}

pub open spec fn opt_line(o: Option<LogLine>) -> Option<LineModel> {
    match o {
        Some(l) => Some(l@),
        None => None,
    }
}

pub open spec fn opt_process(o: Option<Process>) -> Option<ProcessModel> {
    match o {
        Some(p) => Some(p@),
        None => None,
    }
}

/// The tag and message of a long-form line, given where the white space
/// after the level letter starts (`g`) and ends (`h`). The tag runs up to
/// the first `": "` that leaves it at least one character; where there is
/// none, a `": "` right after two or more blanks leaves the tag empty.
pub open spec fn long_tail(s: Seq<char>, g: int, h: int) -> Option<(Seq<char>, Seq<char>)> {
    match find(s, h + 1, ": "@) {
        Some(q) => Some((trimmed(s, h, q), s.subrange(q + 2, s.len() as int))),
        None => if h - g >= 2 && lit_at(s, h, ": "@) {
            Some((Seq::empty(), s.subrange(h + 2, s.len() as int)))
        } else {
            None
        },
    }
}

/// The long form: date, time, owner, thread id, level letter, tag and
/// message.
pub open spec fn long_form(s: Seq<char>) -> Option<LineModel> {
    let n = s.len() as int;
    if !(shape_at(s, 0, "##-##"@) && n > 5 && is_space(s[5]) && shape_at(s, 6, "##:##:##.###"@)) {
        None
    } else {
        let b = span(s, 18, n, CharClass::Space);
        let c = span(s, b, n, CharClass::Digit);
        let d = span(s, c, n, CharClass::Space);
        let e = span(s, d, n, CharClass::Digit);
        let f = span(s, e, n, CharClass::Space);
        let h = span(s, f + 1, n, CharClass::Space);
        if !(18 < b && b < c && c < d && d < e && e < f && f < n && is_upper(s[f]) && f + 1 < h) {
            None
        } else {
            match long_tail(s, f + 1, h) {
                Some(tm) => Some(
                    LineModel {
                        level: level_or_verbose(s[f]),
                        tag: tm.0,
                        owner: s.subrange(b, c),
                        message: tm.1,
                        date: Some(s.subrange(0, 5)),
                        time: Some(s.subrange(6, 18)),
                        tid: Some(s.subrange(d, e)),
                    },
                ),
                None => None,
            }
        }
    }
}

/// Whether `( OWNER): ` stands at `p`: an opening parenthesis, blanks, a
/// run of digits, and `"): "`.
pub open spec fn owner_at(s: Seq<char>, p: int) -> bool {
    let u = span(s, p + 1, s.len() as int, CharClass::Blank);
    let v = span(s, u, s.len() as int, CharClass::Digit);
    0 <= p < s.len() && s[p] == '(' && u < v && lit_at(s, v, "): "@)
}

/// The first index at or after `p` where `( OWNER): ` stands.
pub open spec fn first_owner(s: Seq<char>, p: int) -> Option<int>
    decreases s.len() - p,
{
    if p < 0 || p >= s.len() {
        None
    } else if owner_at(s, p) {
        Some(p)
    } else {
        first_owner(s, p + 1)
    }
}

/// The brief form: level letter, `/`, tag, owner and message.
pub open spec fn brief_form(s: Seq<char>) -> Option<LineModel> {
    let n = s.len() as int;
    if !(n >= 2 && is_upper(s[0]) && s[1] == '/') {
        None
    } else {
        match first_owner(s, 3) {
            Some(p) => {
                let u = span(s, p + 1, n, CharClass::Blank);
                let v = span(s, u, n, CharClass::Digit);
                Some(
                    LineModel {
                        level: level_or_verbose(s[0]),
                        tag: trimmed(s, 2, p),
                        owner: s.subrange(u, v),
                        message: s.subrange(v + 3, n),
                        date: None,
                        time: None,
                        tid: None,
                    },
                )
            },
            None => None,
        }
    }
}

/// A line read as the long form, or else as the brief form.
pub open spec fn line_record(s: Seq<char>) -> Option<LineModel> {
    if has_newline(s) {
        None
    } else if long_form(s) is Some {
        long_form(s)
    } else {
        brief_form(s)
    }
}

fn trim_range(s: &Vec<char>, lo: usize, hi: usize) -> (r: (usize, usize))
    requires
        lo <= hi <= s@.len(),
    ensures
        r.0 <= r.1 <= hi,
        s@.subrange(r.0 as int, r.1 as int) == trimmed(s@, lo as int, hi as int),
{
    let a = scan(s, lo, hi, CharClass::Space);
    proof {
        lemma_span(s@, lo as int, hi as int, CharClass::Space);
    }
    let b = scan_back(s, a, hi, CharClass::Space);
    proof {
        lemma_back(s@, a as int, hi as int, CharClass::Space);
    }
    (a, b)
}

fn long_tail_at(s: &Vec<char>, g: usize, h: usize) -> (r: Option<(usize, usize, usize)>)
    requires
        g < h <= s@.len(),
    ensures
        r is None <==> long_tail(s@, g as int, h as int) is None,
        r matches Some(t) ==> {
            &&& t.0 <= t.1 <= t.2 <= s@.len()
            &&& long_tail(s@, g as int, h as int) == Some(
                (s@.subrange(t.0 as int, t.1 as int), s@.subrange(t.2 as int, s@.len() as int)),
            )
        },
{
    proof {
        reveal_strlit(": ");
    }
    let found = if h < s.len() {
        find_lit(s, h + 1, ": ")
    } else {
        assert(find(s@, h + 1, ": "@) is None);
        None
    };
    match found {
        Some(q) => {
            let (a, b) = trim_range(s, h, q);
            Some((a, b, q + 2))
        },
        None => {
            if h - g >= 2 && has_lit(s, h, ": ") {
                assert(s@.subrange(h as int, h as int) =~= Seq::<char>::empty());
                Some((h, h, h + 2))
            } else {
                None
            }
        },
    }
}

/// Reads a line in the long form.
pub fn log_line(line: &str) -> (r: Option<LogLine>)
    ensures
        opt_line(r) == (if has_newline(line@) {
            None
        } else {
            long_form(line@)
        }),
{
    let s = chars_of(line);
    let n = s.len();
    proof {
        reveal_strlit("##-##");
        reveal_strlit("##:##:##.###");
    }
    if !no_newline(&s, 0) {
        assert(s@.subrange(0, n as int) =~= s@);
        return None;
    }
    assert(s@.subrange(0, n as int) =~= s@);
    if !(has_shape(&s, 0, "##-##") && n > 5 && class_has(s[5], CharClass::Space) && has_shape(
        &s,
        6,
        "##:##:##.###",
    )) {
        return None;
    }
    let b = scan(&s, 18, n, CharClass::Space);
    proof { lemma_span(s@, 18, n as int, CharClass::Space); }
    let c = scan(&s, b, n, CharClass::Digit);
    proof { lemma_span(s@, b as int, n as int, CharClass::Digit); }
    let d = scan(&s, c, n, CharClass::Space);
    proof { lemma_span(s@, c as int, n as int, CharClass::Space); }
    let e = scan(&s, d, n, CharClass::Digit);
    proof { lemma_span(s@, d as int, n as int, CharClass::Digit); }
    let f = scan(&s, e, n, CharClass::Space);
    proof { lemma_span(s@, e as int, n as int, CharClass::Space); }
    if !(18 < b && b < c && c < d && d < e && e < f && f < n && 'A' <= s[f] && s[f] <= 'Z') {
        return None;
    }
    let h = scan(&s, f + 1, n, CharClass::Space);
    proof { lemma_span(s@, f + 1, n as int, CharClass::Space); }
    if !(f + 1 < h) {
        return None;
    }
    match long_tail_at(&s, f + 1, h) {
        None => None,
        Some((ta, tb, m)) => {
            let level = match LogLevel::from_letter(s[f]) {
                Some(l) => l,
                None => LogLevel::VERBOSE,
            };
            Some(
                LogLine {
                    level,
                    tag: piece(line, ta, tb),
                    owner: piece(line, b, c),
                    message: piece(line, m, n),
                    date: Some(piece(line, 0, 5)),
                    time: Some(piece(line, 6, 18)),
                    tid: Some(piece(line, d, e)),
                },
            )
        },
    }
}

fn owner_here(s: &Vec<char>, p: usize) -> (r: Option<(usize, usize)>)
    requires
        p < s@.len(),
    ensures
        r is Some <==> owner_at(s@, p as int),
        r matches Some(uv) ==> p < uv.0 < uv.1 && uv.0 == span(s@, p + 1, s@.len() as int, CharClass::Blank) && uv.1
            == span(s@, uv.0 as int, s@.len() as int, CharClass::Digit) && uv.1 + 3 <= s@.len(),
{
    let n = s.len();
    if s[p] != '(' {
        return None;
    }
    let u = scan(s, p + 1, n, CharClass::Blank);
    proof { lemma_span(s@, p + 1, n as int, CharClass::Blank); }
    let v = scan(s, u, n, CharClass::Digit);
    proof {
        lemma_span(s@, u as int, n as int, CharClass::Digit);
        reveal_strlit("): ");
    }
    if u < v && has_lit(s, v, "): ") {
        Some((u, v))
    } else {
        None
    }
}

/// Reads a line in the brief form.
pub fn log_line_brief(line: &str) -> (r: Option<LogLine>)
    ensures
        opt_line(r) == (if has_newline(line@) {
            None
        } else {
            brief_form(line@)
        }),
{
    let s = chars_of(line);
    let n = s.len();
    if !no_newline(&s, 0) {
        assert(s@.subrange(0, n as int) =~= s@);
        return None;
    }
    assert(s@.subrange(0, n as int) =~= s@);
    if !(n >= 2 && 'A' <= s[0] && s[0] <= 'Z' && s[1] == '/') {
        return None;
    }
    let mut p: usize = 3;
    while p < n
        invariant
            3 <= p,
            n == s@.len(),
            s@ == line@,
            !has_newline(line@),
            n >= 2 && is_upper(s@[0]) && s@[1] == '/',
            first_owner(s@, p as int) == first_owner(s@, 3),
        decreases n - p,
    {
        match owner_here(&s, p) {
            Some((u, v)) => {
                let (ta, tb) = trim_range(&s, 2, p);
                let level = match LogLevel::from_letter(s[0]) {
                    Some(l) => l,
                    None => LogLevel::VERBOSE,
                };
                return Some(
                    LogLine {
                        level,
                        tag: piece(line, ta, tb),
                        owner: piece(line, u, v),
                        message: piece(line, v + 3, n),
                        date: None,
                        time: None,
                        tid: None,
                    },
                );
            },
            None => {},
        }
        p += 1;
    }
    None
}

/// Reads a line in the long form, or else in the brief form.
pub fn parse_log_line(line: &str) -> (r: Option<LogLine>)
    ensures
        opt_line(r) == line_record(line@),
{
    match log_line(line) {
        Some(l) => Some(l),
        None => log_line_brief(line),
    }
}

/// A start report at `i`: `": Start proc PID:PACKAGE/USER for TARGET"`,
/// with the target running to the end of the line.
pub open spec fn start_at(s: Seq<char>, i: int) -> Option<ProcessModel> {
    let n = s.len() as int;
    let j = i + 13;
    let k = span(s, j, n, CharClass::Digit);
    let l = span(s, k + 1, n, CharClass::Package);
    let m = span(s, l + 1, n, CharClass::User);
    if lit_at(s, i, ": Start proc "@) && j < k && k < n && s[k] == ':' && k + 1 < l && l < n
        && s[l] == '/' && l + 1 < m && lit_at(s, m, " for "@) {
        Some(
            ProcessModel {
                pid: s.subrange(j, k),
                package: s.subrange(k + 1, l),
                target: Some(s.subrange(m + 5, n)),
            },
        )
    } else {
        None
    }
}

/// The start report that stands last among those at or before `i`.
pub open spec fn last_start(s: Seq<char>, i: int) -> Option<ProcessModel>
    decreases i + 1,
{
    if i < 0 {
        None
    } else if start_at(s, i) is Some {
        start_at(s, i)
    } else {
        last_start(s, i - 1)
    }
}

/// The process that a line reports as started, if any.
pub open spec fn start_event(s: Seq<char>) -> Option<ProcessModel> {
    if has_newline(s) {
        None
    } else {
        last_start(s, s.len() as int)
    }
}

/// `"Killing PID:PACKAGE/...: ..."`.
pub open spec fn kill_event(t: Seq<char>) -> Option<ProcessModel> {
    let n = t.len() as int;
    let k = span(t, 8, n, CharClass::Digit);
    let l = span(t, k + 1, n, CharClass::Package);
    let m = span(t, l + 1, n, CharClass::NotColon);
    if lit_at(t, 0, "Killing "@) && 8 < k && k < n && t[k] == ':' && k + 1 < l && l < n && t[l]
        == '/' && l + 1 < m && lit_at(t, m, ": "@) && !has_newline(t.subrange(m + 2, n)) {
        Some(ProcessModel { pid: t.subrange(8, k), package: t.subrange(k + 1, l), target: None })
    } else {
        None
    }
}

/// `"No longer want PACKAGE (pid PID): ..."`.
pub open spec fn leave_event(t: Seq<char>) -> Option<ProcessModel> {
    let n = t.len() as int;
    let l = span(t, 15, n, CharClass::Package);
    let k = span(t, l + 6, n, CharClass::Digit);
    if lit_at(t, 0, "No longer want "@) && 15 < l && lit_at(t, l, " (pid "@) && l + 6 < k
        && lit_at(t, k, "): "@) && !has_newline(t.subrange(k + 3, n)) {
        Some(ProcessModel { pid: t.subrange(l + 6, k), package: t.subrange(15, l), target: None })
    } else {
        None
    }
}

/// `"Process PACKAGE (pid PID) has died"`, with at most one more character.
pub open spec fn death_event(t: Seq<char>) -> Option<ProcessModel> {
    let n = t.len() as int;
    let l = span(t, 8, n, CharClass::Package);
    let k = span(t, l + 6, n, CharClass::Digit);
    if lit_at(t, 0, "Process "@) && 8 < l && lit_at(t, l, " (pid "@) && l + 6 < k && lit_at(
        t,
        k,
        ") has died"@,
    ) && (n == k + 10 || (n == k + 11 && t[n - 1] != '\n')) {
        Some(ProcessModel { pid: t.subrange(l + 6, k), package: t.subrange(8, l), target: None })
    } else {
        None
    }
}

/// The process that an activity manager message reports as ended, if any.
pub open spec fn end_event(tag: Seq<char>, message: Seq<char>) -> Option<ProcessModel> {
    if tag != "ActivityManager"@ {
        None
    } else if kill_event(message) is Some {
        kill_event(message)
    } else if leave_event(message) is Some {
        leave_event(message)
    } else {
        death_event(message)
    }
}

/// A reported start or end never has an empty pid or package.
pub proof fn lemma_event_fields(line: Seq<char>, tag: Seq<char>, message: Seq<char>)
    ensures
        start_event(line) matches Some(p) ==> p.pid.len() > 0 && p.package.len() > 0
            && p.target is Some,
        end_event(tag, message) matches Some(p) ==> p.pid.len() > 0 && p.package.len() > 0
            && p.target is None,
{
    if !has_newline(line) {
        lemma_last_start_fields(line, line.len() as int);
    }
}

proof fn lemma_last_start_fields(s: Seq<char>, i: int)
    ensures
        last_start(s, i) matches Some(p) ==> p.pid.len() > 0 && p.package.len() > 0
            && p.target is Some,
    decreases i + 1,
{
    if i >= 0 && start_at(s, i) is None {
        lemma_last_start_fields(s, i - 1);
    }
}

fn start_here(line: &str, s: &Vec<char>, i: usize) -> (r: Option<Process>)
    requires
        s@ == line@,
        i <= s@.len(),
    ensures
        opt_process(r) == start_at(s@, i as int),
{
    let n = s.len();
    proof {
        reveal_strlit(": Start proc ");
        reveal_strlit(" for ");
    }
    if !has_lit(s, i, ": Start proc ") {
        return None;
    }
    let j = i + 13;
    let k = scan(s, j, n, CharClass::Digit);
    proof { lemma_span(s@, j as int, n as int, CharClass::Digit); }
    if !(j < k && k < n && s[k] == ':') {
        return None;
    }
    let l = scan(s, k + 1, n, CharClass::Package);
    proof { lemma_span(s@, k + 1, n as int, CharClass::Package); }
    if !(k + 1 < l && l < n && s[l] == '/') {
        return None;
    }
    let m = scan(s, l + 1, n, CharClass::User);
    proof { lemma_span(s@, l + 1, n as int, CharClass::User); }
    if !(l + 1 < m && has_lit(s, m, " for ")) {
        return None;
    }
    Some(
        Process {
            line_pid: piece(line, j, k),
            line_package: piece(line, k + 1, l),
            target: Some(piece(line, m + 5, n)),
        },
    )
}

/// Finds the last report of a process start in a raw line.
pub fn parse_start_proc(line: &str) -> (r: Option<Process>)
    ensures
        opt_process(r) == start_event(line@),
{
    let s = chars_of(line);
    let n = s.len();
    if !no_newline(&s, 0) {
        assert(s@.subrange(0, n as int) =~= s@);
        return None;
    }
    assert(s@.subrange(0, n as int) =~= s@);
    let mut i = n;
    loop
        invariant
            i <= n == s@.len(),
            s@ == line@,
            !has_newline(line@),
            last_start(s@, i as int) == last_start(s@, n as int),
        decreases i,
    {
        match start_here(line, &s, i) {
            Some(p) => {
                return Some(p);
            },
            None => {},
        }
        if i == 0 {
            assert(last_start(s@, -1) is None);
            return None;
        }
        i -= 1;
    }
}

pub fn pid_kill(message: &str) -> (r: Option<Process>)
    ensures
        opt_process(r) == kill_event(message@),
{
    let t = chars_of(message);
    let n = t.len();
    proof {
        reveal_strlit("Killing ");
        reveal_strlit(": ");
    }
    if !has_lit(&t, 0, "Killing ") {
        return None;
    }
    let k = scan(&t, 8, n, CharClass::Digit);
    proof { lemma_span(t@, 8, n as int, CharClass::Digit); }
    if !(8 < k && k < n && t[k] == ':') {
        return None;
    }
    let l = scan(&t, k + 1, n, CharClass::Package);
    proof { lemma_span(t@, k + 1, n as int, CharClass::Package); }
    if !(k + 1 < l && l < n && t[l] == '/') {
        return None;
    }
    let m = scan(&t, l + 1, n, CharClass::NotColon);
    proof { lemma_span(t@, l + 1, n as int, CharClass::NotColon); }
    if !(l + 1 < m && has_lit(&t, m, ": ") && no_newline(&t, m + 2)) {
        return None;
    }
    Some(
        Process {
            line_pid: piece(message, 8, k),
            line_package: piece(message, k + 1, l),
            target: None,
        },
    )
}

pub fn pid_leave(message: &str) -> (r: Option<Process>)
    ensures
        opt_process(r) == leave_event(message@),
{
    let t = chars_of(message);
    let n = t.len();
    proof {
        reveal_strlit("No longer want ");
        reveal_strlit(" (pid ");
        reveal_strlit("): ");
    }
    if !has_lit(&t, 0, "No longer want ") {
        return None;
    }
    let l = scan(&t, 15, n, CharClass::Package);
    proof { lemma_span(t@, 15, n as int, CharClass::Package); }
    if !(15 < l && has_lit(&t, l, " (pid ")) {
        return None;
    }
    let k = scan(&t, l + 6, n, CharClass::Digit);
    proof { lemma_span(t@, l + 6, n as int, CharClass::Digit); }
    if !(l + 6 < k && has_lit(&t, k, "): ") && no_newline(&t, k + 3)) {
        return None;
    }
    Some(
        Process {
            line_pid: piece(message, l + 6, k),
            line_package: piece(message, 15, l),
            target: None,
        },
    )
}

pub fn pid_death(message: &str) -> (r: Option<Process>)
    ensures
        opt_process(r) == death_event(message@),
{
    let t = chars_of(message);
    let n = t.len();
    proof {
        reveal_strlit("Process ");
        reveal_strlit(" (pid ");
        reveal_strlit(") has died");
    }
    if !has_lit(&t, 0, "Process ") {
        return None;
    }
    let l = scan(&t, 8, n, CharClass::Package);
    proof { lemma_span(t@, 8, n as int, CharClass::Package); }
    if !(8 < l && has_lit(&t, l, " (pid ")) {
        return None;
    }
    let k = scan(&t, l + 6, n, CharClass::Digit);
    proof { lemma_span(t@, l + 6, n as int, CharClass::Digit); }
    if !(l + 6 < k && has_lit(&t, k, ") has died")) {
        return None;
    }
    if !(n == k + 10 || (n == k + 11 && t[n - 1] != '\n')) {
        return None;
    }
    Some(
        Process {
            line_pid: piece(message, l + 6, k),
            line_package: piece(message, 8, l),
            target: None,
        },
    )
}

/// Whether two texts hold the same characters.
pub fn same_text(a: &str, b: &str) -> (r: bool)
    ensures
        r == (a@ == b@),
{
    let x = chars_of(a);
    let y = chars_of(b);
    if x.len() != y.len() {
        return false;
    }
    let mut j: usize = 0;
    while j < x.len()
        invariant
            x@ == a@,
            y@ == b@,
            x@.len() == y@.len(),
            j <= x@.len(),
            forall|t: int| 0 <= t < j ==> x@[t] == y@[t],
        decreases x@.len() - j,
    {
        if x[j] != y[j] {
            return false;
        }
        j += 1;
    }
    assert(x@ =~= y@);
    true
}

/// Finds the report of a process end in an activity manager message.
pub fn parse_death(tag: &str, message: &str) -> (r: Option<Process>)
    ensures
        opt_process(r) == end_event(tag@, message@),
{
    if !same_text(tag, "ActivityManager") {
        return None;
    }
    match pid_kill(message) {
        Some(p) => Some(p),
        None => match pid_leave(message) {
            Some(p) => Some(p),
            None => pid_death(message),
        },
    }
}

} // verus!
