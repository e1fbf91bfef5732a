//! The session filter: which processes are followed, which lines are shown,
//! and where a run of lines under one tag starts.

use crate::level::LogLevel;
use crate::parser::{
    end_event, line_record, parse_death, parse_log_line, parse_start_proc,
    same_text, start_event, LineModel, LogLine, Process, ProcessModel,
};
use crate::text::{span, CharClass};
use vstd::prelude::*;

verus! {

/// The part of a package text before its first `:`.
pub open spec fn package_base(input: Seq<char>) -> Seq<char> {
    input.subrange(0, span(input, 0, input.len() as int, CharClass::NotColon))
}

/// Whether a package text passes the package filter: an empty filter passes
/// every one.
pub open spec fn package_matches(packages: Seq<Seq<char>>, input: Seq<char>) -> bool {
    packages.len() == 0 || packages.contains(package_base(input))
}

/// Whether a tag passes the tag filter: an empty filter passes every one.
pub open spec fn tag_matches(tags: Seq<Seq<char>>, tag: Seq<char>) -> bool {
    tags.len() == 0 || tags.contains(tag)
}

pub open spec fn texts(v: Seq<&str>) -> Seq<Seq<char>> {
    v.map_values(|p: &str| p@)
}

pub open spec fn strings(v: Seq<String>) -> Seq<Seq<char>> {
    v.map_values(|p: String| p@)
}

/// Whether `x` is among `v`.
pub fn listed(v: &[&str], x: &str) -> (r: bool)
    ensures
        r == texts(v@).contains(x@),
{
    let mut j: usize = 0;
    while j < v.len()
        invariant
            j <= v@.len(),
            forall|t: int| 0 <= t < j ==> v@[t]@ != x@,
        decreases v@.len() - j,
    {
        if same_text(v[j], x) {
            assert(texts(v@)[j as int] == x@);
            return true;
        }
        j += 1;
    }
    assert forall|t: int| 0 <= t < texts(v@).len() implies texts(v@)[t] != x@ by {
        assert(v@[t]@ != x@);
    }
    false
}

/// Whether a package text, up to its first `:`, is one of `packages`; an
/// empty list takes every package.
pub fn match_package(packages: &[&str], input: &str) -> (r: bool)
    ensures
        r == package_matches(texts(packages@), input@),
{
    if packages.len() == 0 {
        return true;
    }
    let s = crate::text::chars_of(input);
    let end = crate::text::scan(&s, 0, s.len(), CharClass::NotColon);
    proof {
        crate::text::lemma_span(s@, 0, s@.len() as int, CharClass::NotColon);
    }
    let base = input.substring_char(0, end);
    listed(packages, base)
}

/// Whether a tag is one of `tags`; an empty list takes every tag.
pub fn match_tag(tags: &[&str], tag: &str) -> (r: bool)
    ensures
        r == tag_matches(texts(tags@), tag@),
{
    if tags.len() == 0 {
        return true;
    }
    listed(tags, tag)
}

/// Which lines a session shows.
pub struct Filter {
    /// Packages whose processes are followed; empty: every line is shown.
    pub packages: Vec<String>,
    /// Tags that are shown; empty: every tag.
    pub tags: Vec<String>,
    /// The least severity that is shown; none: every level.
    pub level: Option<LogLevel>,
}

pub struct FilterModel {
    pub packages: Seq<Seq<char>>,
    pub tags: Seq<Seq<char>>,
    pub level: Option<LogLevel>,
}

impl View for Filter {
    type V = FilterModel;

    open spec fn view(&self) -> FilterModel {
        FilterModel {
            packages: strings(self.packages@),
            tags: strings(self.tags@),
            level: self.level,
        }
    }
}

/// What the session asks to show for a line.
pub enum Action {
    /// A followed process started.
    Started(Process),
    /// A followed process ended.
    Ended(Process),
    /// The line itself; the flag tells whether it starts a run of its tag.
    Show(LogLine, bool),
}

pub enum ActionModel {
    Started(ProcessModel),
    Ended(ProcessModel),
    Show(LineModel, bool),
}

impl View for Action {
    type V = ActionModel;

    open spec fn view(&self) -> ActionModel {
        match self {
            Action::Started(p) => ActionModel::Started(p@),
            Action::Ended(p) => ActionModel::Ended(p@),
            Action::Show(l, b) => ActionModel::Show(l@, *b),
        }
    }
}

/// The state of a session: the owners that belong to followed processes,
/// and the tag of the line shown last.
pub struct Session {
    owners: Vec<String>,
    last_tag: Option<String>,
}

pub struct SessionModel {
    pub owners: Set<Seq<char>>,
    pub last_tag: Option<Seq<char>>,
}

impl View for Session {
    type V = SessionModel;

    closed spec fn view(&self) -> SessionModel {
        SessionModel {
            owners: Set::new(|y: Seq<char>| strings(self.owners@).contains(y)),
            last_tag: match self.last_tag {
                Some(t) => Some(t@),
                None => None,
            },
        }
    }
}

/// The state after a line reports a start, and what it asks to show.
pub open spec fn after_start(st: SessionModel, f: FilterModel, line: Seq<char>) -> (
    SessionModel,
    Seq<ActionModel>,
) {
    match start_event(line) {
        Some(p) => if package_matches(f.packages, p.package) {
            (
                SessionModel { owners: st.owners.insert(p.pid), last_tag: None },
                seq![ActionModel::Started(p)],
            )
        } else {
            (st, Seq::empty())
        },
        None => (st, Seq::empty()),
    }
}

/// The state after a record reports an end, and what it asks to show.
pub open spec fn after_end(st: SessionModel, f: FilterModel, rec: LineModel) -> (
    SessionModel,
    Seq<ActionModel>,
) {
    match end_event(rec.tag, rec.message) {
        Some(p) => if package_matches(f.packages, p.package) {
            (
                SessionModel { owners: st.owners.remove(p.pid), last_tag: None },
                seq![ActionModel::Ended(p)],
            )
        } else {
            (st, Seq::empty())
        },
        None => (st, Seq::empty()),
    }
}

/// Whether a record is shown, in a state whose owners are `owners`.
pub open spec fn shown(owners: Set<Seq<char>>, f: FilterModel, rec: LineModel) -> bool {
    &&& (f.packages.len() == 0 || owners.contains(rec.owner))
    &&& match f.level {
        Some(min) => rec.level.rank() >= min.rank(),
        None => true,
    }
}

/// The state after a line, and what it asks to show, in order.
pub open spec fn step(st: SessionModel, f: FilterModel, line: Seq<char>) -> (
    SessionModel,
    Seq<ActionModel>,
) {
    match line_record(line) {
        None => (st, Seq::empty()),
        Some(rec) => {
            let (s1, a1) = after_start(st, f, line);
            let (s2, a2) = after_end(s1, f, rec);
            if !tag_matches(f.tags, rec.tag) {
                (s2, a1 + a2)
            } else {
                let new_tag = s2.last_tag != Some(rec.tag);
                let s3 = SessionModel { owners: s2.owners, last_tag: Some(rec.tag) };
                if shown(s3.owners, f, rec) {
                    (s3, a1 + a2 + seq![ActionModel::Show(rec, new_tag)])
                } else {
                    (s3, a1 + a2)
                }
            }
        },
    }
}

pub open spec fn actions(v: Seq<Action>) -> Seq<ActionModel> {
    v.map_values(|a: Action| a@)
}

proof fn lemma_contains_push<A>(s: Seq<A>, x: A)
    ensures
        forall|y: A| #[trigger] s.push(x).contains(y) <==> (s.contains(y) || y == x),
{
    assert forall|y: A| #[trigger] s.push(x).contains(y) <==> (s.contains(y) || y == x) by {
        if s.contains(y) {
            let k = choose|k: int| 0 <= k < s.len() && s[k] == y;
            assert(s.push(x)[k] == y);
        }
        if y == x {
            assert(s.push(x)[s.len() as int] == y);
        }
        if s.push(x).contains(y) {
            let k = choose|k: int| 0 <= k < s.len() + 1 && s.push(x)[k] == y;
            if k < s.len() {
                assert(s[k] == y);
            }
        }
    }
}

fn str_list(v: &Vec<String>) -> (r: Vec<&str>)
    ensures
        texts(r@) == strings(v@),
{
    let mut r: Vec<&str> = Vec::new();
    let mut j: usize = 0;
    while j < v.len()
        invariant
            j <= v@.len(),
            texts(r@) == strings(v@).subrange(0, j as int),
        decreases v@.len() - j,
    {
        let ghost prev = r@;
        let x = v[j].as_str();
        r.push(x);
        assert(r@ == prev.push(x));
        assert(texts(r@) =~= texts(prev).push(x@));
        j += 1;
        assert(texts(r@) =~= strings(v@).subrange(0, j as int));
    }
    assert(strings(v@).subrange(0, j as int) =~= strings(v@));
    r
}

impl Session {
    /// A session that follows no process and has shown no line.
    pub fn new() -> (r: Session)
        ensures
            r@.owners == Set::<Seq<char>>::empty(),
            r@.last_tag is None,
    {
        let r = Session { owners: Vec::new(), last_tag: None };
        assert(r@.owners =~= Set::<Seq<char>>::empty());
        r
    }

    /// Whether `owner` belongs to a followed process.
    pub fn follows(&self, owner: &str) -> (r: bool)
        ensures
            r == self@.owners.contains(owner@),
    {
        let mut j: usize = 0;
        while j < self.owners.len()
            invariant
                j <= self.owners@.len(),
                forall|t: int| 0 <= t < j ==> self.owners@[t]@ != owner@,
            decreases self.owners@.len() - j,
        {
            if same_text(self.owners[j].as_str(), owner) {
                assert(strings(self.owners@)[j as int] == owner@);
                return true;
            }
            j += 1;
        }
        assert forall|t: int| 0 <= t < strings(self.owners@).len() implies strings(
            self.owners@,
        )[t] != owner@ by {
            assert(self.owners@[t]@ != owner@);
        }
        false
    }

    fn add_owner(&mut self, owner: String)
        ensures
            final(self)@.owners == old(self)@.owners.insert(owner@),
            final(self).last_tag == old(self).last_tag,
    {
        let ghost o = owner@;
        if !self.follows(owner.as_str()) {
            let ghost before = self.owners@;
            self.owners.push(owner);
            assert(strings(self.owners@) =~= strings(before).push(o));
            proof {
                lemma_contains_push(strings(before), o);
            }
        }
        assert(self@.owners =~= old(self)@.owners.insert(o));
    }

    fn drop_owner(&mut self, owner: &str)
        ensures
            final(self)@.owners == old(self)@.owners.remove(owner@),
            final(self).last_tag == old(self).last_tag,
    {
        let ghost before = strings(self.owners@);
        let mut kept: Vec<String> = Vec::new();
        let mut j: usize = 0;
        while j < self.owners.len()
            invariant
                j <= self.owners@.len(),
                before == strings(self.owners@),
                forall|y: Seq<char>|
                    strings(kept@).contains(y) <==> (before.subrange(0, j as int).contains(y) && y
                        != owner@),
            decreases self.owners@.len() - j,
        {
            let ghost prev = strings(kept@);
            if !same_text(self.owners[j].as_str(), owner) {
                kept.push(self.owners[j].clone());
                assert(strings(kept@) =~= prev.push(before[j as int]));
                proof {
                    lemma_contains_push(prev, before[j as int]);
                }
            }
            proof {
                lemma_contains_push(before.subrange(0, j as int), before[j as int]);
            }
            assert forall|y: Seq<char>|
                strings(kept@).contains(y) <==> (before.subrange(0, j + 1).contains(y) && y
                    != owner@) by {
                assert(before.subrange(0, j + 1) =~= before.subrange(0, j as int).push(
                    before[j as int],
                ));
            }
            j += 1;
        }
        assert(before.subrange(0, j as int) =~= before);
        self.owners = kept;
        assert(self@.owners =~= old(self)@.owners.remove(owner@));
    }

    /// Takes one raw line: follows or forgets the processes it reports, and
    /// says what to show for it.
    pub fn handle(&mut self, filter: &Filter, line: &str) -> (r: Vec<Action>)
        ensures
            (final(self)@, actions(r@)) == step(old(self)@, filter@, line@),
    {
        let mut out: Vec<Action> = Vec::new();
        let log = match parse_log_line(line) {
            None => {
                assert(actions(out@) =~= Seq::<ActionModel>::empty());
                return out;
            },
            Some(l) => l,
        };
        let packages = str_list(&filter.packages);
        let tags = str_list(&filter.tags);
        match parse_start_proc(line) {
            Some(p) => {
                if match_package(packages.as_slice(), p.line_package.as_str()) {
                    self.add_owner(p.line_pid.clone());
                    self.last_tag = None;
                    out.push(Action::Started(p));
                }
            },
            None => {},
        }
        let ghost s1 = self@;
        let ghost a1 = actions(out@);
        assert((s1, a1) == after_start(old(self)@, filter@, line@)) by {
            assert(a1 =~= after_start(old(self)@, filter@, line@).1);
        }
        match parse_death(log.tag.as_str(), log.message.as_str()) {
            Some(p) => {
                if match_package(packages.as_slice(), p.line_package.as_str()) {
                    self.drop_owner(p.line_pid.as_str());
                    self.last_tag = None;
                    out.push(Action::Ended(p));
                }
            },
            None => {},
        }
        let ghost s2 = self@;
        assert(s2 == after_end(s1, filter@, log@).0);
        assert(actions(out@) =~= a1 + after_end(s1, filter@, log@).1);
        if !match_tag(tags.as_slice(), log.tag.as_str()) {
            return out;
        }
        let new_tag = match &self.last_tag {
            Some(t) => !same_text(t.as_str(), log.tag.as_str()),
            None => true,
        };
        if new_tag {
            self.last_tag = Some(log.tag.clone());
        }
        assert(self@.owners == s2.owners);
        let pass_owner = packages.len() == 0 || self.follows(log.owner.as_str());
        let pass_level = match &filter.level {
            Some(min) => log.level.at_least(min),
            None => true,
        };
        if pass_owner && pass_level {
            let ghost before = actions(out@);
            out.push(Action::Show(log, new_tag));
            assert(actions(out@) =~= before.push(actions(out@).last()));
        }
        out
    }
}

} // verus!
