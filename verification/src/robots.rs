//! robots.txt: parsing of `User-agent` / `Allow` / `Disallow` directives into
//! rule groups, the longest-prefix matching decision, and a per-host cache
//! with a time-to-live that fails open when the rules cannot be fetched.
use vstd::prelude::*;

use crate::text;

verus! {

/// One `Allow` (`allow == true`) or `Disallow` (`allow == false`) directive.
pub struct RobotsRule {
    pub allow: bool,
    pub path: String,
}

/// Directives grouped under one or more `User-agent` lines (lower-cased).
pub struct RuleGroup {
    pub agents: Vec<String>,
    pub rules: Vec<RobotsRule>,
}

pub ghost struct RuleView {
    pub allow: bool,
    pub path: Seq<char>,
}

pub ghost struct GroupView {
    pub agents: Seq<Seq<char>>,
    pub rules: Seq<RuleView>,
}

impl View for RobotsRule {
    type V = RuleView;

    open spec fn view(&self) -> RuleView {
        RuleView { allow: self.allow, path: self.path@ }
    }
}

impl View for RuleGroup {
    type V = GroupView;

    open spec fn view(&self) -> GroupView {
        GroupView {
            agents: self.agents@.map_values(|a: String| a@),
            rules: self.rules@.map_values(|r: RobotsRule| r@),
        }
    }
}

pub open spec fn groups_view(gs: Seq<RuleGroup>) -> Seq<GroupView> {
    gs.map_values(|g: RuleGroup| g@)
}

/// What a single robots.txt line means.
pub ghost enum LineView {
    Agent(Seq<char>),
    Rule(bool, Seq<char>),
    Other,
    Blank,
}

/// Classify one line: comments are cut at `#`, the directive name is read
/// case-insensitively before the first `:`, and the value is trimmed.
pub open spec fn classify_line(line: Seq<char>) -> LineView {
    let content = line.subrange(0, text::find_from(line, 0, '#'));
    let ci = text::find_from(content, 0, ':');
    if ci == content.len() {
        LineView::Blank
    } else {
        let key = text::lower_s(text::trim_s(content.subrange(0, ci)));
        let value = text::trim_s(content.subrange(ci + 1, content.len() as int));
        if key == "user-agent"@ {
            LineView::Agent(text::lower_s(value))
        } else if key == "allow"@ {
            LineView::Rule(true, value)
        } else if key == "disallow"@ {
            LineView::Rule(false, value)
        } else {
            LineView::Other
        }
    }
}

/// Parser state: finished groups, the group being built, and whether the
/// previous meaningful line was a `User-agent` line.
pub ghost struct RobotsState {
    pub done: Seq<GroupView>,
    pub has_cur: bool,
    pub cur: GroupView,
    pub last_agent: bool,
}

pub open spec fn robots_init() -> RobotsState {
    RobotsState {
        done: Seq::empty(),
        has_cur: false,
        cur: GroupView { agents: Seq::empty(), rules: Seq::empty() },
        last_agent: false,
    }
}

/// One line changes the parser state: consecutive `User-agent` lines gather
/// in one group, a rule line attaches to the current group, a rule with no
/// group is dropped.
pub open spec fn robots_step(st: RobotsState, line: Seq<char>) -> RobotsState {
    match classify_line(line) {
        LineView::Agent(a) => {
            if st.last_agent && st.has_cur {
                RobotsState {
                    cur: GroupView { agents: st.cur.agents.push(a), rules: st.cur.rules },
                    ..st
                }
            } else {
                RobotsState {
                    done: if st.has_cur {
                        st.done.push(st.cur)
                    } else {
                        st.done
                    },
                    has_cur: true,
                    cur: GroupView { agents: seq![a], rules: Seq::empty() },
                    last_agent: true,
                }
            }
        },
        LineView::Rule(al, p) => {
            if st.has_cur {
                RobotsState {
                    cur: GroupView {
                        agents: st.cur.agents,
                        rules: st.cur.rules.push(RuleView { allow: al, path: p }),
                    },
                    last_agent: false,
                    ..st
                }
            } else {
                RobotsState { last_agent: false, ..st }
            }
        },
        LineView::Other => RobotsState { last_agent: false, ..st },
        LineView::Blank => st,
    }
}

/// Fold over the lines from position `i` on (lines end at `\n`).
pub open spec fn robots_fold(s: Seq<char>, i: int, st: RobotsState) -> RobotsState
    decreases s.len() - i,
    when 0 <= i <= s.len()
    via robots_fold_dec
{
    if i >= s.len() {
        st
    } else {
        let e = text::find_from(s, i, '\n');
        let st2 = robots_step(st, s.subrange(i, e));
        if e + 1 <= s.len() {
            robots_fold(s, e + 1, st2)
        } else {
            st2
        }
    }
}

#[via_fn]
proof fn robots_fold_dec(s: Seq<char>, i: int, st: RobotsState) {
    if 0 <= i <= s.len() && i < s.len() {
        text::lemma_find_from_bounds(s, i, '\n');
    }
}

pub open spec fn robots_finish(st: RobotsState) -> Seq<GroupView> {
    if st.has_cur {
        st.done.push(st.cur)
    } else {
        st.done
    }
}

/// The rule groups of a robots.txt body.
pub open spec fn parse_robots_s(s: Seq<char>) -> Seq<GroupView> {
    robots_finish(robots_fold(s, 0, robots_init()))
}

fn classify_line_exec(line: &Vec<char>) -> (r: (u8, Vec<char>))
    ensures
        (r.0 == 0u8 ==> classify_line(line@) == LineView::Blank),
        (r.0 == 1u8 ==> classify_line(line@) == LineView::Agent(r.1@)),
        (r.0 == 2u8 ==> classify_line(line@) == LineView::Rule(true, r.1@)),
        (r.0 == 3u8 ==> classify_line(line@) == LineView::Rule(false, r.1@)),
        (r.0 == 4u8 ==> classify_line(line@) == LineView::Other),
        r.0 <= 4u8,
{
    let hi = text::find_char(line, 0, '#');
    proof {
        text::lemma_find_from_bounds(line@, 0, '#');
    }
    let content = text::subvec(line, 0, hi);
    let ci = text::find_char(&content, 0, ':');
    proof {
        text::lemma_find_from_bounds(content@, 0, ':');
    }
    if ci == content.len() {
        return (0u8, Vec::new());
    }
    let key_raw = text::subvec(&content, 0, ci);
    let key_trim = text::trim_vec(&key_raw);
    let key = text::lower_vec(&key_trim);
    let val_raw = text::subvec(&content, ci + 1, content.len());
    let value = text::trim_vec(&val_raw);
    if text::eq_lit(&key, "user-agent") {
        let a = text::lower_vec(&value);
        (1u8, a)
    } else if text::eq_lit(&key, "allow") {
        (2u8, value)
    } else if text::eq_lit(&key, "disallow") {
        (3u8, value)
    } else {
        (4u8, Vec::new())
    }
}

/// Exec parser state mirroring `RobotsState`.
struct RobotsBuild {
    done: Vec<RuleGroup>,
    has_cur: bool,
    cur_agents: Vec<String>,
    cur_rules: Vec<RobotsRule>,
    last_agent: bool,
}

impl RobotsBuild {
    spec fn view_state(&self) -> RobotsState {
        RobotsState {
            done: groups_view(self.done@),
            has_cur: self.has_cur,
            cur: GroupView {
                agents: self.cur_agents@.map_values(|a: String| a@),
                rules: self.cur_rules@.map_values(|r: RobotsRule| r@),
            },
            last_agent: self.last_agent,
        }
    }
}

fn robots_step_exec(st: RobotsBuild, line: &Vec<char>) -> (r: RobotsBuild)
    ensures
        r.view_state() == robots_step(st.view_state(), line@),
{
    let ghost st0 = st.view_state();
    let RobotsBuild { mut done, has_cur, mut cur_agents, mut cur_rules, last_agent } = st;
    let (kind, val) = classify_line_exec(line);
    if kind == 0u8 {
        return RobotsBuild { done, has_cur, cur_agents, cur_rules, last_agent };
    }
    if kind == 1u8 {
        if last_agent && has_cur {
            cur_agents.push(text::string_from_chars(&val));
            proof {
                assert(cur_agents@.map_values(|a: String| a@) =~= st0.cur.agents.push(val@));
            }
            return RobotsBuild { done, has_cur, cur_agents, cur_rules, last_agent };
        } else {
            if has_cur {
                let g = RuleGroup { agents: cur_agents, rules: cur_rules };
                done.push(g);
                proof {
                    assert(groups_view(done@) =~= st0.done.push(st0.cur));
                }
            }
            let mut agents: Vec<String> = Vec::new();
            agents.push(text::string_from_chars(&val));
            let rules: Vec<RobotsRule> = Vec::new();
            proof {
                assert(agents@.map_values(|a: String| a@) =~= seq![val@]);
                assert(rules@.map_values(|r: RobotsRule| r@) =~= Seq::<RuleView>::empty());
            }
            return RobotsBuild {
                done,
                has_cur: true,
                cur_agents: agents,
                cur_rules: rules,
                last_agent: true,
            };
        }
    }
    if kind == 2u8 || kind == 3u8 {
        if has_cur {
            cur_rules.push(RobotsRule { allow: kind == 2u8, path: text::string_from_chars(&val) });
            proof {
                assert(cur_rules@.map_values(|r: RobotsRule| r@) =~= st0.cur.rules.push(
                    RuleView { allow: kind == 2u8, path: val@ },
                ));
            }
        }
        return RobotsBuild { done, has_cur, cur_agents, cur_rules, last_agent: false };
    }
    RobotsBuild { done, has_cur, cur_agents, cur_rules, last_agent: false }
}

/// Parse a robots.txt body into rule groups.
pub fn parse_robots(body: &str) -> (r: Vec<RuleGroup>)
    ensures
        groups_view(r@) == parse_robots_s(body@),
{
    let v = text::chars_vec(body);
    let n = v.len();
    let mut st = RobotsBuild {
        done: Vec::new(),
        has_cur: false,
        cur_agents: Vec::new(),
        cur_rules: Vec::new(),
        last_agent: false,
    };
    proof {
        assert(groups_view(st.done@) =~= robots_init().done);
        assert(st.cur_agents@.map_values(|a: String| a@) =~= robots_init().cur.agents);
        assert(st.cur_rules@.map_values(|r: RobotsRule| r@) =~= robots_init().cur.rules);
    }
    let mut i: usize = 0;
    while i < n
        invariant
            n == v@.len(),
            0 <= i <= n,
            robots_fold(v@, 0, robots_init()) == robots_fold(v@, i as int, st.view_state()),
        decreases n - i,
    {
        let e = text::find_char(&v, i, '\n');
        proof {
            text::lemma_find_from_bounds(v@, i as int, '\n');
        }
        let line = text::subvec(&v, i, e);
        st = robots_step_exec(st, &line);
        if e < n {
            i = e + 1;
        } else {
            i = n;
        }
    }
    let r = if st.has_cur {
        let g = RuleGroup { agents: st.cur_agents, rules: st.cur_rules };
        let mut done = st.done;
        done.push(g);
        proof {
            assert(groups_view(done@) =~= parse_robots_s(body@));
        }
        done
    } else {
        st.done
    };
    r
}

/// Length of the longest rule path with the given flag that is a prefix of
/// `path` (-1 when none matches; an empty `Disallow` never matches).
pub open spec fn best_match_len(rules: Seq<RuleView>, allow: bool, path: Seq<char>) -> int
    decreases rules.len(),
{
    if rules.len() == 0 {
        -1
    } else {
        let b = best_match_len(rules.drop_last(), allow, path);
        let r = rules.last();
        if r.allow == allow && text::is_prefix_at(path, 0, r.path) && (allow || r.path.len() > 0)
            && r.path.len() > b {
            r.path.len() as int
        } else {
            b
        }
    }
}

/// The group blocks `path` when some `Disallow` matches and no strictly
/// longer `Allow` overrides it.
pub open spec fn group_blocks(g: GroupView, path: Seq<char>) -> bool {
    let d = best_match_len(g.rules, false, path);
    let a = best_match_len(g.rules, true, path);
    d >= 0 && !(a > d)
}

/// A group names the configured user agent when one of its agents (other
/// than the wildcard) occurs in the lower-cased user agent string.
pub open spec fn group_matches_ua(g: GroupView, ua_lower: Seq<char>) -> bool {
    exists|i: int|
        0 <= i < g.agents.len() && g.agents[i] != "*"@ && text::has_substring(
            ua_lower,
            g.agents[i],
        )
}

pub open spec fn group_has_star(g: GroupView) -> bool {
    exists|i: int| 0 <= i < g.agents.len() && g.agents[i] == "*"@
}

/// The first group naming the user agent, else the first wildcard group.
pub open spec fn first_ua_group(gs: Seq<GroupView>, ua_lower: Seq<char>) -> Option<GroupView>
    decreases gs.len(),
{
    if gs.len() == 0 {
        None
    } else if group_matches_ua(gs.first(), ua_lower) {
        Some(gs.first())
    } else {
        first_ua_group(gs.drop_first(), ua_lower)
    }
}

pub open spec fn first_star_group(gs: Seq<GroupView>) -> Option<GroupView>
    decreases gs.len(),
{
    if gs.len() == 0 {
        None
    } else if group_has_star(gs.first()) {
        Some(gs.first())
    } else {
        first_star_group(gs.drop_first())
    }
}

pub open spec fn pick_group(gs: Seq<GroupView>, ua_lower: Seq<char>) -> Option<GroupView> {
    match first_ua_group(gs, ua_lower) {
        Some(g) => Some(g),
        None => first_star_group(gs),
    }
}

/// Whether the rules allow fetching `path` for this user agent: true when no
/// group applies, otherwise the matching group must not block the path.
pub open spec fn allowed_s(gs: Seq<GroupView>, ua_lower: Seq<char>, path: Seq<char>) -> bool {
    match pick_group(gs, ua_lower) {
        None => true,
        Some(g) => !group_blocks(g, path),
    }
}

fn best_match_len_exec(rules: &Vec<RobotsRule>, allow: bool, path: &Vec<char>) -> (r: (bool, usize))
    ensures
        r.0 ==> best_match_len(rules@.map_values(|x: RobotsRule| x@), allow, path@) == r.1 as int,
        !r.0 ==> best_match_len(rules@.map_values(|x: RobotsRule| x@), allow, path@) == -1,
{
    let ghost rv = rules@.map_values(|x: RobotsRule| x@);
    let mut found = false;
    let mut best: usize = 0;
    let mut i: usize = 0;
    while i < rules.len()
        invariant
            0 <= i <= rules@.len(),
            rv == rules@.map_values(|x: RobotsRule| x@),
            found ==> best_match_len(rv.take(i as int), allow, path@) == best as int,
            !found ==> best_match_len(rv.take(i as int), allow, path@) == -1,
        decreases rules.len() - i,
    {
        let rp = text::chars_vec(rules[i].path.as_str());
        let matches = rules[i].allow == allow && text::starts_with_from(path, 0, &rp) && (allow
            || rp.len() > 0);
        proof {
            assert(rv.take(i + 1 as int).drop_last() =~= rv.take(i as int));
            assert(rv.take(i + 1 as int).last() == rv[i as int]);
        }
        if matches && (!found || rp.len() > best) {
            found = true;
            best = rp.len();
        }
        i = i + 1;
    }
    proof {
        assert(rv.take(rules@.len() as int) =~= rv);
    }
    (found, best)
}

fn group_blocks_exec(g: &RuleGroup, path: &Vec<char>) -> (r: bool)
    ensures
        r == group_blocks(g@, path@),
{
    let (df, dl) = best_match_len_exec(&g.rules, false, path);
    let (af, al) = best_match_len_exec(&g.rules, true, path);
    if !df {
        return false;
    }
    if af && al > dl {
        return false;
    }
    true
}

fn group_matches_ua_exec(g: &RuleGroup, ua_lower: &Vec<char>) -> (r: bool)
    ensures
        r == group_matches_ua(g@, ua_lower@),
{
    let mut i: usize = 0;
    while i < g.agents.len()
        invariant
            0 <= i <= g.agents@.len(),
            forall|k: int|
                0 <= k < i ==> !(g@.agents[k] != "*"@ && text::has_substring(
                    ua_lower@,
                    g@.agents[k],
                )),
        decreases g.agents.len() - i,
    {
        let a = text::chars_vec(g.agents[i].as_str());
        assert(a@ == g@.agents[i as int]);
        if !text::eq_lit(&a, "*") && text::contains_sub(ua_lower, &a) {
            return true;
        }
        i = i + 1;
    }
    false
}

fn group_has_star_exec(g: &RuleGroup) -> (r: bool)
    ensures
        r == group_has_star(g@),
{
    let mut i: usize = 0;
    while i < g.agents.len()
        invariant
            0 <= i <= g.agents@.len(),
            forall|k: int| 0 <= k < i ==> g@.agents[k] != "*"@,
        decreases g.agents.len() - i,
    {
        let a = text::chars_vec(g.agents[i].as_str());
        assert(a@ == g@.agents[i as int]);
        if text::eq_lit(&a, "*") {
            return true;
        }
        i = i + 1;
    }
    false
}

/// Decide whether `path` may be fetched under these rules, for this user
/// agent (compared case-insensitively).
pub fn robots_allowed(groups: &Vec<RuleGroup>, user_agent: &str, path: &str) -> (r: bool)
    ensures
        r == allowed_s(groups_view(groups@), text::lower_s(user_agent@), path@),
{
    let uar = text::chars_vec(user_agent);
    let ua = text::lower_vec(&uar);
    let pv = text::chars_vec(path);
    let ghost gv = groups_view(groups@);
    proof {
        assert(gv.skip(0) =~= gv);
    }
    let mut i: usize = 0;
    let mut star_idx: usize = 0;
    let mut star_found = false;
    while i < groups.len()
        invariant
            0 <= i <= groups@.len(),
            gv == groups_view(groups@),
            ua@ == text::lower_s(user_agent@),
            pv@ == path@,
            first_ua_group(gv, ua@) == first_ua_group(gv.skip(i as int), ua@),
            forall|k: int| 0 <= k < i ==> !group_matches_ua(gv[k], ua@),
            star_found ==> star_idx < i && group_has_star(gv[star_idx as int]) && forall|k: int|
                0 <= k < star_idx ==> !group_has_star(gv[k]),
            !star_found ==> forall|k: int| 0 <= k < i ==> !group_has_star(gv[k]),
        decreases groups.len() - i,
    {
        proof {
            assert(gv.skip(i as int).first() == gv[i as int]);
            assert(gv.skip(i as int).drop_first() =~= gv.skip(i + 1));
        }
        if group_matches_ua_exec(&groups[i], &ua) {
            assert(first_ua_group(gv, ua@) == Some(gv[i as int]));
            return !group_blocks_exec(&groups[i], &pv);
        }
        if !star_found && group_has_star_exec(&groups[i]) {
            star_found = true;
            star_idx = i;
        }
        i = i + 1;
    }
    proof {
        assert(gv.skip(groups@.len() as int) =~= Seq::<GroupView>::empty());
        assert(first_ua_group(gv, ua@) is None);
    }
    if star_found {
        proof {
            lemma_first_star_at(gv, star_idx as int);
        }
        return !group_blocks_exec(&groups[star_idx], &pv);
    }
    proof {
        lemma_no_star(gv);
    }
    true
}

/// Mathematical shape of one cache entry.
pub ghost struct EntryView {
    pub host: Seq<char>,
    pub fetched_at: u64,
    pub groups: Seq<GroupView>,
}

/// Parsed rules for one host, with the time they were fetched.
pub struct RobotsEntry {
    pub host: String,
    pub fetched_at: u64,
    pub groups: Vec<RuleGroup>,
}

impl View for RobotsEntry {
    type V = EntryView;

    open spec fn view(&self) -> EntryView {
        EntryView { host: self.host@, fetched_at: self.fetched_at, groups: groups_view(self.groups@) }
    }
}

/// First index whose entry has the given host, or the length.
pub open spec fn idx_of(s: Seq<EntryView>, host: Seq<char>) -> int
    decreases s.len(),
{
    if s.len() == 0 {
        0
    } else if s.first().host == host {
        0
    } else {
        1 + idx_of(s.drop_first(), host)
    }
}

pub open spec fn cache_find(s: Seq<EntryView>, host: Seq<char>) -> Option<EntryView> {
    let k = idx_of(s, host);
    if k < s.len() {
        Some(s[k])
    } else {
        None
    }
}

pub proof fn lemma_idx_of_props(s: Seq<EntryView>, host: Seq<char>)
    ensures
        0 <= idx_of(s, host) <= s.len(),
        idx_of(s, host) < s.len() ==> s[idx_of(s, host)].host == host,
        forall|m: int| 0 <= m < idx_of(s, host) ==> s[m].host != host,
        idx_of(s, host) == s.len() ==> forall|m: int| 0 <= m < s.len() ==> s[m].host != host,
    decreases s.len(),
{
    if s.len() > 0 && s.first().host != host {
        lemma_idx_of_props(s.drop_first(), host);
        assert forall|m: int| 0 <= m < idx_of(s, host) implies s[m].host != host by {
            if m > 0 {
                assert(s.drop_first()[m - 1] == s[m]);
            }
        }
        if idx_of(s, host) == s.len() {
            assert forall|m: int| 0 <= m < s.len() implies s[m].host != host by {
                if m > 0 {
                    assert(s.drop_first()[m - 1] == s[m]);
                }
            }
        }
    }
}

pub proof fn lemma_idx_of_is(s: Seq<EntryView>, host: Seq<char>, k: int)
    requires
        0 <= k < s.len(),
        s[k].host == host,
        forall|m: int| 0 <= m < k ==> s[m].host != host,
    ensures
        idx_of(s, host) == k,
    decreases k,
{
    if k > 0 {
        assert(forall|m: int| 0 <= m < k - 1 ==> s.drop_first()[m] == s[m + 1]);
        assert(s.drop_first()[k - 1] == s[k]);
        lemma_idx_of_is(s.drop_first(), host, k - 1);
    }
}

pub proof fn lemma_idx_of_none(s: Seq<EntryView>, host: Seq<char>)
    requires
        forall|m: int| 0 <= m < s.len() ==> s[m].host != host,
    ensures
        idx_of(s, host) == s.len(),
    decreases s.len(),
{
    if s.len() > 0 {
        assert(forall|m: int| 0 <= m < s.drop_first().len() ==> s.drop_first()[m] == s[m + 1]);
        lemma_idx_of_none(s.drop_first(), host);
    }
}

/// An entry is fresh while `now` has not passed its fetch time by more than
/// the time-to-live.
pub open spec fn fresh_at(e: EntryView, now: u64, ttl: u64) -> bool {
    now <= e.fetched_at + ttl
}

/// The cache rows after fresh rules land for a host: the host's entry is
/// replaced in place, or a new entry is appended.
pub open spec fn install_rows(
    entries: Seq<EntryView>,
    host: Seq<char>,
    now: u64,
    groups: Seq<GroupView>,
) -> Seq<EntryView> {
    let e = EntryView { host: host, fetched_at: now, groups: groups };
    let k = idx_of(entries, host);
    if k < entries.len() {
        entries.update(k, e)
    } else {
        entries.push(e)
    }
}

/// Per-host cache of parsed robots rules, hosts unique.
pub struct RobotsCache {
    pub ttl_secs: u64,
    pub entries: Vec<RobotsEntry>,
}

impl RobotsCache {
    pub open spec fn entries_v(&self) -> Seq<EntryView> {
        self.entries@.map_values(|e: RobotsEntry| e@)
    }

    pub open spec fn wf(&self) -> bool {
        forall|i: int, j: int|
            0 <= i < j < self.entries_v().len() ==> self.entries_v()[i].host
                != self.entries_v()[j].host
    }

    /// The entry cached for a host, fresh or not.
    pub open spec fn found(&self, host: Seq<char>) -> Option<EntryView> {
        cache_find(self.entries_v(), host)
    }

    pub fn new(ttl_secs: u64) -> (r: RobotsCache)
        ensures
            r.wf(),
            r.ttl_secs == ttl_secs,
            r.entries_v() == Seq::<EntryView>::empty(),
    {
        let r = RobotsCache { ttl_secs, entries: Vec::new() };
        proof {
            assert(r.entries_v() =~= Seq::<EntryView>::empty());
        }
        r
    }

    fn find_idx(&self, host: &Vec<char>) -> (r: usize)
        ensures
            r as int == idx_of(self.entries_v(), host@),
    {
        let ghost ev = self.entries_v();
        let mut i: usize = 0;
        while i < self.entries.len()
            invariant
                0 <= i <= self.entries@.len(),
                ev == self.entries_v(),
                ev.len() == self.entries@.len(),
                forall|m: int| 0 <= m < i ==> ev[m].host != host@,
            decreases self.entries.len() - i,
        {
            let hv = text::chars_vec(self.entries[i].host.as_str());
            assert(hv@ == ev[i as int].host);
            if text::vec_eq_vec(&hv, host) {
                proof {
                    lemma_idx_of_is(ev, host@, i as int);
                }
                return i;
            }
            i = i + 1;
        }
        proof {
            lemma_idx_of_none(ev, host@);
        }
        self.entries.len()
    }

    /// The cached groups for a host, provided the entry is still fresh.
    pub fn lookup(&self, host: &str, now: u64) -> (r: Option<&Vec<RuleGroup>>)
        ensures
            match r {
                Some(g) => (self.found(host@) matches Some(e) && fresh_at(e, now, self.ttl_secs)
                    && groups_view(g@) == e.groups),
                None => !(self.found(host@) matches Some(e) && fresh_at(e, now, self.ttl_secs)),
            },
    {
        let hv = text::chars_vec(host);
        let k = self.find_idx(&hv);
        proof {
            lemma_idx_of_props(self.entries_v(), host@);
        }
        if k < self.entries.len() {
            let e = &self.entries[k];
            if now <= e.fetched_at || now - e.fetched_at <= self.ttl_secs {
                return Some(&e.groups);
            }
        }
        None
    }

    /// Cache freshly fetched rules for a host, replacing any old entry.
    pub fn install(&mut self, host: &str, now: u64, groups: Vec<RuleGroup>)
        requires
            old(self).wf(),
        ensures
            final(self).wf(),
            final(self).ttl_secs == old(self).ttl_secs,
            final(self).entries_v() == install_rows(
                old(self).entries_v(),
                host@,
                now,
                groups_view(groups@),
            ),
            final(self).found(host@) == Some(
                EntryView { host: host@, fetched_at: now, groups: groups_view(groups@) },
            ),
            forall|h: Seq<char>|
                h != host@ ==> #[trigger] final(self).found(h) == old(self).found(h),
    {
        let hv = text::chars_vec(host);
        let k = self.find_idx(&hv);
        proof {
            lemma_idx_of_props(self.entries_v(), host@);
        }
        let e = RobotsEntry { host: host.to_owned(), fetched_at: now, groups };
        let ghost oldv = self.entries_v();
        if k < self.entries.len() {
            self.entries[k] = e;
            proof {
                let newv = self.entries_v();
                assert(newv =~= oldv.update(k as int, EntryView { host: host@, fetched_at: now, groups: groups_view(groups@) }));
                lemma_idx_of_is(newv, host@, k as int);
                assert forall|h: Seq<char>| h != host@ implies #[trigger] final(self).found(h)
                    == old(self).found(h) by {
                    lemma_idx_of_props(oldv, h);
                    lemma_idx_of_props(newv, h);
                    if idx_of(oldv, h) < oldv.len() {
                        lemma_idx_of_is(newv, h, idx_of(oldv, h));
                    } else {
                        lemma_idx_of_none(newv, h);
                    }
                }
            }
        } else {
            self.entries.push(e);
            proof {
                let newv = self.entries_v();
                assert(newv =~= oldv.push(EntryView { host: host@, fetched_at: now, groups: groups_view(groups@) }));
                lemma_idx_of_is(newv, host@, oldv.len() as int);
                assert forall|h: Seq<char>| h != host@ implies #[trigger] final(self).found(h)
                    == old(self).found(h) by {
                    lemma_idx_of_props(oldv, h);
                    lemma_idx_of_props(newv, h);
                    if idx_of(oldv, h) < oldv.len() {
                        lemma_idx_of_is(newv, h, idx_of(oldv, h));
                    } else {
                        lemma_idx_of_none(newv, h);
                    }
                }
            }
        }
    }
}

/// What came back from a robots.txt fetch: the body on success, nothing on a
/// timeout, transport failure or non-success status.
pub fn robots_fetch_body(status: u16, body: String) -> (r: Option<String>)
    ensures
        200 <= status < 300 ==> r == Some(body),
        !(200 <= status < 300) ==> r is None,
{
    if 200 <= status && status < 300 {
        Some(body)
    } else {
        None
    }
}

/// The crawl decision right after a robots.txt fetch: no body — the fetch
/// timed out, failed, or the server answered with a non-success status —
/// fails open and allows the URL; a body is parsed and consulted.
pub fn robots_decision(body: &Option<String>, user_agent: &str, path: &str) -> (r: bool)
    ensures
        body is None ==> r == true,
        body matches Some(b) ==> r == allowed_s(
            parse_robots_s(b@),
            text::lower_s(user_agent@),
            path@,
        ),
{
    match body {
        None => true,
        Some(b) => {
            let groups = parse_robots(b.as_str());
            robots_allowed(&groups, user_agent, path)
        },
    }
}

proof fn lemma_first_star_at(gs: Seq<GroupView>, i: int)
    requires
        0 <= i < gs.len(),
        group_has_star(gs[i]),
        forall|k: int| 0 <= k < i ==> !group_has_star(gs[k]),
    ensures
        first_star_group(gs) == Some(gs[i]),
    decreases i,
{
    if i == 0 {
    } else {
        assert(gs.drop_first()[i - 1] == gs[i]);
        assert(forall|k: int| 0 <= k < i - 1 ==> gs.drop_first()[k] == gs[k + 1]);
        lemma_first_star_at(gs.drop_first(), i - 1);
    }
}

proof fn lemma_no_star(gs: Seq<GroupView>)
    requires
        forall|k: int| 0 <= k < gs.len() ==> !group_has_star(gs[k]),
    ensures
        first_star_group(gs) is None,
    decreases gs.len(),
{
    if gs.len() > 0 {
        assert(forall|k: int| 0 <= k < gs.drop_first().len() ==> gs.drop_first()[k] == gs[k + 1]);
        lemma_no_star(gs.drop_first());
    }
}

} // verus!
