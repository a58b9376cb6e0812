//! Which tools may run, and which need the user's approval.
use vstd::prelude::*;
use crate::pattern;
use crate::text;

verus! {

#[derive(Debug, Clone, Copy, PartialEq, Eq, Structural)]
pub enum PermissionLevel {
    Allow,
    Ask,
    Deny,
}

/// A level for the tools whose names a pattern matches.
pub struct PermissionRule {
    pub pattern: String,
    pub level: PermissionLevel,
}

/// The contents of a `PermissionRule`.
pub struct RuleView {
    pub pattern: Seq<char>,
    pub level: PermissionLevel,
}

impl DeepView for PermissionRule {
    type V = RuleView;

    open spec fn deep_view(&self) -> RuleView {
        RuleView { pattern: self.pattern@, level: self.level }
    }
}

/// Decides on the tools that an agent may use. `approver` says whether there
/// is someone to ask.
pub struct DefaultPermissionChecker {
    pub allowed_tools: Vec<String>,
    pub allowed_patterns: Vec<String>,
    pub ask_patterns: Vec<String>,
    pub rules: Vec<PermissionRule>,
    pub approver: bool,
}

/// The contents of a `DefaultPermissionChecker`.
pub struct CheckerView {
    pub allowed_tools: Seq<Seq<char>>,
    pub allowed_patterns: Seq<Seq<char>>,
    pub ask_patterns: Seq<Seq<char>>,
    pub rules: Seq<RuleView>,
    pub approver: bool,
}

impl DeepView for DefaultPermissionChecker {
    type V = CheckerView;

    open spec fn deep_view(&self) -> CheckerView {
        CheckerView {
            allowed_tools: self.allowed_tools.deep_view(),
            allowed_patterns: self.allowed_patterns.deep_view(),
            ask_patterns: self.ask_patterns.deep_view(),
            rules: self.rules.deep_view(),
            approver: self.approver,
        }
    }
}

/// The checker that permits nothing.
pub open spec fn strict() -> CheckerView {
    CheckerView {
        allowed_tools: Seq::empty(),
        allowed_patterns: Seq::empty(),
        ask_patterns: Seq::empty(),
        rules: Seq::empty(),
        approver: false,
    }
}

/// `names` with `name` among them, once.
pub open spec fn with_name(names: Seq<Seq<char>>, name: Seq<char>) -> Seq<Seq<char>> {
    if names.contains(name) {
        names
    } else {
        names.push(name)
    }
}

/// `names` with each of `more` among them.
pub open spec fn with_names(names: Seq<Seq<char>>, more: Seq<Seq<char>>) -> Seq<Seq<char>>
    decreases more.len(),
{
    if more.len() == 0 {
        names
    } else {
        with_name(with_names(names, more.drop_last()), more.last())
    }
}

/// The checker of an agent. Where `*` is among the allowed names, every tool
/// is allowed by pattern, the names before it are allowed by name, and nothing
/// is asked.
pub open spec fn agent_checker(
    allowed: Seq<Seq<char>>,
    asked: Seq<Seq<char>>,
    approver: bool,
) -> CheckerView {
    if allowed.contains("*"@) {
        CheckerView {
            allowed_tools: with_names(Seq::empty(), allowed.take(allowed.index_of_first("*"@).unwrap())),
            allowed_patterns: seq!["*"@],
            approver,
            ..strict()
        }
    } else {
        CheckerView {
            allowed_tools: with_names(Seq::empty(), allowed),
            ask_patterns: asked,
            approver,
            ..strict()
        }
    }
}

/// Where the first pattern that matches `name` stands.
pub open spec fn first_match(patterns: Seq<Seq<char>>, name: Seq<char>) -> Option<int>
    decreases patterns.len(),
{
    if patterns.len() == 0 {
        None
    } else if pattern::wildcard(patterns[0], name) {
        Some(0)
    } else {
        match first_match(patterns.drop_first(), name) {
            Some(i) => Some(i + 1),
            None => None,
        }
    }
}

/// The first rule that matches `name`.
pub open spec fn first_rule(rules: Seq<RuleView>, name: Seq<char>) -> Option<RuleView>
    decreases rules.len(),
{
    if rules.len() == 0 {
        None
    } else if pattern::wildcard(rules[0].pattern, name) {
        Some(rules[0])
    } else {
        first_rule(rules.drop_first(), name)
    }
}

/// What a checker says of a tool before anyone is asked.
pub enum VerdictView {
    Allowed,
    Ask { pattern: Seq<char> },
    Denied { rule: Seq<char> },
    Unknown,
}

/// A name or pattern of the allowed ones decides first, then the first rule
/// that matches, then the patterns to ask for.
pub open spec fn verdict(c: CheckerView, name: Seq<char>) -> VerdictView {
    if c.allowed_tools.contains(name) || first_match(c.allowed_patterns, name) is Some {
        VerdictView::Allowed
    } else {
        match first_rule(c.rules, name) {
            Some(rule) => match rule.level {
                PermissionLevel::Allow => VerdictView::Allowed,
                PermissionLevel::Deny => VerdictView::Denied { rule: rule.pattern },
                PermissionLevel::Ask => VerdictView::Ask { pattern: rule.pattern },
            },
            None => match first_match(c.ask_patterns, name) {
                Some(i) => VerdictView::Ask { pattern: c.ask_patterns[i] },
                None => VerdictView::Unknown,
            },
        }
    }
}

/// Why a tool may not run, given what the approver answers where one is asked;
/// `None` where it may run.
pub open spec fn refusal(c: CheckerView, name: Seq<char>, approved: bool) -> Option<Seq<char>> {
    match verdict(c, name) {
        VerdictView::Allowed => None,
        VerdictView::Denied { rule } => Some(
            "Tool '"@ + name + "' is denied by rule '"@ + rule + "'"@,
        ),
        VerdictView::Ask { pattern } => if c.approver && approved {
            None
        } else {
            Some("Tool '"@ + name + "' requires user permission (pattern: '"@ + pattern + "')"@)
        },
        VerdictView::Unknown => Some("Tool '"@ + name + "' is not permitted"@),
    }
}

/// The error of a result, where it has one.
pub open spec fn error_of(r: Result<(), String>) -> Option<Seq<char>> {
    match r {
        Ok(_) => None,
        Err(e) => Some(e@),
    }
}

/// What a checker says of a tool before anyone is asked.
pub enum Verdict {
    Allowed,
    Ask { pattern: String },
    Denied { rule: String },
    Unknown,
}

impl DeepView for Verdict {
    type V = VerdictView;

    open spec fn deep_view(&self) -> VerdictView {
        match *self {
            Verdict::Allowed => VerdictView::Allowed,
            Verdict::Ask { pattern } => VerdictView::Ask { pattern: pattern@ },
            Verdict::Denied { rule } => VerdictView::Denied { rule: rule@ },
            Verdict::Unknown => VerdictView::Unknown,
        }
    }
}

/// Something that says whether a tool may run, given what the user answers
/// where the user is asked.
pub trait PermissionChecker {
    spec fn refuses(&self, name: Seq<char>, approved: bool) -> Option<Seq<char>>;

    fn check(&self, tool_name: &str, approved: bool) -> (r: Result<(), String>)
        ensures
            error_of(r) == self.refuses(tool_name@, approved),
    ;
}

/// Whether `name` is among `names`.
pub fn among(names: &Vec<String>, name: &str) -> (r: bool)
    ensures
        r == names.deep_view().contains(name@),
{
    let mut i: usize = 0;
    while i < names.len()
        invariant
            i <= names@.len(),
            forall|j: int| 0 <= j < i ==> names.deep_view()[j] != name@,
        decreases names@.len() - i,
    {
        if text::same(names[i].as_str(), name) {
            assert(names.deep_view()[i as int] == name@);
            return true;
        }
        i = i + 1;
    }
    false
}

fn matching(patterns: &Vec<String>, name: &str) -> (r: Option<usize>)
    ensures
        match r {
            Some(i) => i < patterns@.len() && first_match(patterns.deep_view(), name@) == Some(i as int),
            None => first_match(patterns.deep_view(), name@) is None,
        },
{
    let ghost all = patterns.deep_view();
    let mut i: usize = 0;
    assert(all.skip(0) =~= all);
    while i < patterns.len()
        invariant
            i <= patterns@.len(),
            all == patterns.deep_view(),
            first_match(all, name@) == (match first_match(all.skip(i as int), name@) {
                Some(k) => Some(k + i),
                None => None,
            }),
        decreases patterns@.len() - i,
    {
        if pattern::wildcard_match(patterns[i].as_str(), name) {
            return Some(i);
        }
        assert(all.skip(i as int).drop_first() =~= all.skip(i + 1));
        i = i + 1;
    }
    None
}

impl DefaultPermissionChecker {
    pub fn new() -> (r: Self)
        ensures
            r.deep_view() == strict(),
    {
        let r = DefaultPermissionChecker {
            allowed_tools: Vec::new(),
            allowed_patterns: Vec::new(),
            ask_patterns: Vec::new(),
            rules: Vec::new(),
            approver: false,
        };
        assert(r.allowed_tools.deep_view() =~= Seq::<Seq<char>>::empty());
        assert(r.allowed_patterns.deep_view() =~= Seq::<Seq<char>>::empty());
        assert(r.ask_patterns.deep_view() =~= Seq::<Seq<char>>::empty());
        assert(r.rules.deep_view() =~= Seq::<RuleView>::empty());
        r
    }

    /// Allows the tool of that name.
    pub fn allow_tool(self, name: &str) -> (r: Self)
        ensures
            r.deep_view() == (CheckerView {
                allowed_tools: with_name(self.deep_view().allowed_tools, name@),
                ..self.deep_view()
            }),
    {
        let mut r = self;
        if !among(&r.allowed_tools, name) {
            r.allowed_tools.push(name.to_owned());
            assert(r.allowed_tools.deep_view() =~= self.allowed_tools.deep_view().push(name@));
        }
        r
    }

    /// Allows the tools whose names the pattern matches.
    pub fn allow_pattern(self, pattern: &str) -> (r: Self)
        ensures
            r.deep_view() == (CheckerView {
                allowed_patterns: self.deep_view().allowed_patterns.push(pattern@),
                ..self.deep_view()
            }),
    {
        let mut r = self;
        r.allowed_patterns.push(pattern.to_owned());
        assert(r.allowed_patterns.deep_view() =~= self.allowed_patterns.deep_view().push(pattern@));
        r
    }

    /// Asks for the tools whose names the pattern matches, unless they are
    /// already allowed.
    pub fn ask_pattern(self, pattern: &str) -> (r: Self)
        ensures
            r.deep_view() == (CheckerView {
                ask_patterns: self.deep_view().ask_patterns.push(pattern@),
                ..self.deep_view()
            }),
    {
        let mut r = self;
        r.ask_patterns.push(pattern.to_owned());
        assert(r.ask_patterns.deep_view() =~= self.ask_patterns.deep_view().push(pattern@));
        r
    }

    /// Adds a rule behind those there are.
    pub fn add_rule(self, rule: PermissionRule) -> (r: Self)
        ensures
            r.deep_view() == (CheckerView {
                rules: self.deep_view().rules.push(rule.deep_view()),
                ..self.deep_view()
            }),
    {
        let mut r = self;
        r.rules.push(rule);
        assert(r.rules.deep_view() =~= self.rules.deep_view().push(rule.deep_view()));
        r
    }

    /// Says that there is someone to ask.
    pub fn with_approver(self) -> (r: Self)
        ensures
            r.deep_view() == (CheckerView { approver: true, ..self.deep_view() }),
    {
        self.with_approver_maybe(true)
    }

    fn with_approver_maybe(self, approver: bool) -> (r: Self)
        ensures
            r.deep_view() == (CheckerView { approver, ..self.deep_view() }),
    {
        let mut r = self;
        r.approver = approver;
        r
    }

    /// The checker for an agent's lists of allowed and asked tools.
    pub fn from_agent(default_allowed: &Vec<String>, ask_patterns: &Vec<String>, approver: bool) -> (r:
        Self)
        ensures
            r.deep_view() == agent_checker(
                default_allowed.deep_view(),
                ask_patterns.deep_view(),
                approver,
            ),
    {
        let ghost allowed = default_allowed.deep_view();
        let ghost asked = ask_patterns.deep_view();
        let mut checker = DefaultPermissionChecker::new();
        let mut i: usize = 0;
        while i < default_allowed.len()
            invariant
                i <= default_allowed@.len(),
                allowed == default_allowed.deep_view(),
                asked == ask_patterns.deep_view(),
                forall|j: int| 0 <= j < i ==> allowed[j] != "*"@,
                checker.deep_view() == (CheckerView {
                    allowed_tools: with_names(Seq::empty(), allowed.take(i as int)),
                    ..strict()
                }),
            decreases default_allowed@.len() - i,
        {
            if text::same(default_allowed[i].as_str(), "*") {
                let r = checker.allow_pattern("*").with_approver_maybe(approver);
                proof {
                    assert(allowed[i as int] == "*"@);
                    assert(allowed.contains("*"@));
                    allowed.index_of_first_ensures("*"@);
                    assert(allowed.index_of_first("*"@) == Some(i as int));
                    assert(Seq::<Seq<char>>::empty().push("*"@) =~= seq!["*"@]);
                }
                return r;
            }
            checker = checker.allow_tool(default_allowed[i].as_str());
            assert(allowed.take(i + 1).drop_last() =~= allowed.take(i as int));
            i = i + 1;
        }
        assert(allowed.take(i as int) =~= allowed);
        let mut k: usize = 0;
        assert(asked.take(0) =~= Seq::<Seq<char>>::empty());
        while k < ask_patterns.len()
            invariant
                k <= ask_patterns@.len(),
                asked == ask_patterns.deep_view(),
                checker.deep_view() == (CheckerView {
                    allowed_tools: with_names(Seq::empty(), allowed),
                    ask_patterns: asked.take(k as int),
                    ..strict()
                }),
            decreases ask_patterns@.len() - k,
        {
            checker = checker.ask_pattern(ask_patterns[k].as_str());
            assert(asked.take(k as int).push(asked[k as int]) =~= asked.take(k + 1));
            k = k + 1;
        }
        assert(asked.take(k as int) =~= asked);
        checker.with_approver_maybe(approver)
    }

    /// What is said of a tool before anyone is asked.
    pub fn verdict(&self, tool_name: &str) -> (r: Verdict)
        ensures
            r.deep_view() == verdict(self.deep_view(), tool_name@),
    {
        if among(&self.allowed_tools, tool_name) {
            return Verdict::Allowed;
        }
        if matching(&self.allowed_patterns, tool_name).is_some() {
            return Verdict::Allowed;
        }
        let ghost all = self.rules.deep_view();
        let mut i: usize = 0;
        assert(all.skip(0) =~= all);
        while i < self.rules.len()
            invariant
                i <= self.rules@.len(),
                all == self.rules.deep_view(),
                !self.deep_view().allowed_tools.contains(tool_name@),
                first_match(self.deep_view().allowed_patterns, tool_name@) is None,
                first_rule(all, tool_name@) == first_rule(all.skip(i as int), tool_name@),
            decreases self.rules@.len() - i,
        {
            let rule = &self.rules[i];
            if pattern::wildcard_match(rule.pattern.as_str(), tool_name) {
                assert(all.skip(i as int)[0] == rule.deep_view());
                return match rule.level {
                    PermissionLevel::Allow => Verdict::Allowed,
                    PermissionLevel::Deny => Verdict::Denied { rule: rule.pattern.clone() },
                    PermissionLevel::Ask => Verdict::Ask { pattern: rule.pattern.clone() },
                };
            }
            assert(all.skip(i as int).drop_first() =~= all.skip(i + 1));
            i = i + 1;
        }
        match matching(&self.ask_patterns, tool_name) {
            Some(k) => Verdict::Ask { pattern: self.ask_patterns[k].clone() },
            None => Verdict::Unknown,
        }
    }

    /// Whether the approver is to be asked about a tool.
    pub fn asks(&self, tool_name: &str) -> (r: bool)
        ensures
            r == (self.approver && verdict(self.deep_view(), tool_name@) is Ask),
    {
        self.approver && matches!(self.verdict(tool_name), Verdict::Ask { .. })
    }
}

impl Default for DefaultPermissionChecker {
    fn default() -> (r: Self)
        ensures
            r.deep_view() == strict(),
    {
        DefaultPermissionChecker::new()
    }
}

impl PermissionChecker for DefaultPermissionChecker {
    open spec fn refuses(&self, name: Seq<char>, approved: bool) -> Option<Seq<char>> {
        refusal(self.deep_view(), name, approved)
    }

    fn check(&self, tool_name: &str, approved: bool) -> Result<(), String> {
        match self.verdict(tool_name) {
            Verdict::Allowed => Ok(()),
            Verdict::Denied { rule } => Err(
                text::cat5("Tool '", tool_name, "' is denied by rule '", rule.as_str(), "'"),
            ),
            Verdict::Ask { pattern } => if self.approver && approved {
                Ok(())
            } else {
                Err(
                    text::cat5(
                        "Tool '",
                        tool_name,
                        "' requires user permission (pattern: '",
                        pattern.as_str(),
                        "')",
                    ),
                )
            },
            Verdict::Unknown => Err(text::cat3("Tool '", tool_name, "' is not permitted")),
        }
    }
}

// ── Laws ──

/// A tool that is allowed by name runs, whatever the rules and the user say.
pub proof fn allowed_tools_run(c: CheckerView, name: Seq<char>, approved: bool)
    requires
        c.allowed_tools.contains(name),
    ensures
        refusal(c, name, approved) is None,
{
}

/// Without an approver the user's answer changes nothing, and a tool to ask
/// for is refused.
pub proof fn nobody_to_ask(c: CheckerView, name: Seq<char>)
    requires
        !c.approver,
    ensures
        refusal(c, name, true) == refusal(c, name, false),
        verdict(c, name) is Ask ==> refusal(c, name, true) is Some,
{
}

/// With an approver, a tool to ask for runs exactly where the user agrees.
pub proof fn the_user_decides(c: CheckerView, name: Seq<char>, approved: bool)
    requires
        c.approver,
        verdict(c, name) is Ask,
    ensures
        refusal(c, name, approved) is None <==> approved,
{
}

/// Only a tool to ask for depends on the user's answer.
pub proof fn answers_count_only_when_asked(c: CheckerView, name: Seq<char>)
    requires
        !(verdict(c, name) is Ask),
    ensures
        refusal(c, name, true) == refusal(c, name, false),
{
}

/// A tool that no list and no rule speaks of is refused.
pub proof fn unknown_tools_are_refused(c: CheckerView, name: Seq<char>, approved: bool)
    requires
        !c.allowed_tools.contains(name),
        first_match(c.allowed_patterns, name) is None,
        first_rule(c.rules, name) is None,
        first_match(c.ask_patterns, name) is None,
    ensures
        refusal(c, name, approved) == Some("Tool '"@ + name + "' is not permitted"@),
{
}

/// Rules are read in order: one behind a rule that matches changes nothing.
pub proof fn first_rule_decides(rules: Seq<RuleView>, later: RuleView, name: Seq<char>)
    requires
        first_rule(rules, name) is Some,
    ensures
        first_rule(rules.push(later), name) == first_rule(rules, name),
    decreases rules.len(),
{
    if !pattern::wildcard(rules[0].pattern, name) {
        first_rule_decides(rules.drop_first(), later, name);
        assert(rules.push(later).drop_first() =~= rules.drop_first().push(later));
    }
}

/// The pattern that decides is the first that matches.
pub proof fn first_match_is_first(patterns: Seq<Seq<char>>, name: Seq<char>)
    ensures
        match first_match(patterns, name) {
            Some(i) => 0 <= i < patterns.len() && pattern::wildcard(patterns[i], name) && forall|j: int|
                0 <= j < i ==> !pattern::wildcard(#[trigger] patterns[j], name),
            None => forall|j: int|
                0 <= j < patterns.len() ==> !pattern::wildcard(#[trigger] patterns[j], name),
        },
    decreases patterns.len(),
{
    if patterns.len() > 0 && !pattern::wildcard(patterns[0], name) {
        let rest = patterns.drop_first();
        first_match_is_first(rest, name);
        assert forall|j: int| 0 < j < patterns.len() implies #[trigger] patterns[j] == rest[j - 1] by {}
    }
}

/// The rule that decides is the first that matches.
pub proof fn first_rule_is_first(rules: Seq<RuleView>, name: Seq<char>)
    ensures
        match first_rule(rules, name) {
            Some(rule) => exists|i: int|
                0 <= i < rules.len() && #[trigger] rules[i] == rule && pattern::wildcard(
                    rule.pattern,
                    name,
                ) && forall|j: int|
                    0 <= j < i ==> !pattern::wildcard((#[trigger] rules[j]).pattern, name),
            None => forall|j: int|
                0 <= j < rules.len() ==> !pattern::wildcard((#[trigger] rules[j]).pattern, name),
        },
    decreases rules.len(),
{
    if rules.len() > 0 {
        if pattern::wildcard(rules[0].pattern, name) {
            assert(rules[0] == first_rule(rules, name).unwrap());
        } else {
            let rest = rules.drop_first();
            first_rule_is_first(rest, name);
            assert forall|j: int| 0 < j < rules.len() implies #[trigger] rules[j] == rest[j - 1] by {}
            if let Some(rule) = first_rule(rest, name) {
                let i = choose|i: int|
                    0 <= i < rest.len() && #[trigger] rest[i] == rule && pattern::wildcard(
                        rule.pattern,
                        name,
                    ) && forall|j: int|
                        0 <= j < i ==> !pattern::wildcard((#[trigger] rest[j]).pattern, name);
                assert(rules[i + 1] == rule);
            }
        }
    }
}

/// Whether a tool is on a list of what is allowed, by name or by pattern.
pub open spec fn listed(c: CheckerView, name: Seq<char>) -> bool {
    c.allowed_tools.contains(name) || exists|i: int|
        0 <= i < c.allowed_patterns.len() && pattern::wildcard(
            #[trigger] c.allowed_patterns[i],
            name,
        )
}

/// A tool on a list of what is allowed runs. Of the others the first rule that
/// matches decides: it lets the tool run, has the user asked, or forbids it
/// whatever the user says. Without a rule the user is asked where a pattern to
/// ask for matches, and else the tool is refused.
pub proof fn lists_come_before_rules(c: CheckerView, name: Seq<char>, approved: bool, i: int)
    ensures
        listed(c, name) ==> refusal(c, name, approved) is None,
        !listed(c, name) && 0 <= i < c.rules.len() && pattern::wildcard(c.rules[i].pattern, name)
            && (forall|j: int|
            0 <= j < i ==> !pattern::wildcard((#[trigger] c.rules[j]).pattern, name)) ==> (
        refusal(c, name, approved) is None <==> match c.rules[i].level {
            PermissionLevel::Allow => true,
            PermissionLevel::Deny => false,
            PermissionLevel::Ask => c.approver && approved,
        }),
        !listed(c, name) && (forall|j: int|
            0 <= j < c.rules.len() ==> !pattern::wildcard((#[trigger] c.rules[j]).pattern, name))
            ==> (refusal(c, name, approved) is None <==> c.approver && approved && exists|k: int|
            0 <= k < c.ask_patterns.len() && pattern::wildcard(#[trigger] c.ask_patterns[k], name)),
{
    first_match_is_first(c.allowed_patterns, name);
    first_match_is_first(c.ask_patterns, name);
    first_rule_is_first(c.rules, name);
    if !listed(c, name) && 0 <= i < c.rules.len() && pattern::wildcard(c.rules[i].pattern, name) && (
    forall|j: int| 0 <= j < i ==> !pattern::wildcard((#[trigger] c.rules[j]).pattern, name)) {
        let rule = first_rule(c.rules, name).unwrap();
        let k = choose|k: int|
            0 <= k < c.rules.len() && #[trigger] c.rules[k] == rule && pattern::wildcard(
                rule.pattern,
                name,
            ) && forall|j: int|
                0 <= j < k ==> !pattern::wildcard((#[trigger] c.rules[j]).pattern, name);
        if k < i {
            assert(!pattern::wildcard(c.rules[k].pattern, name));
        }
        if i < k {
            assert(!pattern::wildcard(c.rules[i].pattern, name));
        }
    }
}

/// The user is asked exactly where the answer decides.
pub proof fn questions_decide(c: CheckerView, name: Seq<char>)
    ensures
        c.approver && verdict(c, name) is Ask <==> (refusal(c, name, true) is None && refusal(
            c,
            name,
            false,
        ) is Some),
{
}

/// A refusal names the tool.
pub proof fn refusals_name_the_tool(c: CheckerView, name: Seq<char>, approved: bool)
    ensures
        refusal(c, name, approved) matches Some(why) ==> text::holds(why, name),
{
    text::holds_itself(name);
    match verdict(c, name) {
        VerdictView::Denied { rule } => {
            let tail = "' is denied by rule '"@ + rule + "'"@;
            text::whole_holds_parts("Tool '"@, name, tail, name);
            assert("Tool '"@ + name + tail =~= "Tool '"@ + name + "' is denied by rule '"@ + rule
                + "'"@);
        },
        VerdictView::Ask { pattern } => {
            let tail = "' requires user permission (pattern: '"@ + pattern + "')"@;
            text::whole_holds_parts("Tool '"@, name, tail, name);
            assert("Tool '"@ + name + tail =~= "Tool '"@ + name
                + "' requires user permission (pattern: '"@ + pattern + "')"@);
        },
        VerdictView::Unknown => {
            text::whole_holds_parts("Tool '"@, name, "' is not permitted"@, name);
        },
        VerdictView::Allowed => {},
    }
}

/// Names that are added are among the names, with those there were and no
/// others.
pub proof fn names_are_added(names: Seq<Seq<char>>, more: Seq<Seq<char>>, name: Seq<char>)
    ensures
        with_names(names, more).contains(name) <==> names.contains(name) || more.contains(name),
    decreases more.len(),
{
    if more.len() > 0 {
        let rest = more.drop_last();
        names_are_added(names, rest, name);
        let before = with_names(names, rest);
        let after = with_names(names, more);
        assert(more =~= rest.push(more.last()));
        assert(more.contains(name) <==> rest.contains(name) || more.last() == name) by {
            if rest.contains(name) {
                let i = choose|i: int| 0 <= i < rest.len() && rest[i] == name;
                assert(more[i] == name);
            }
            assert(more[more.len() - 1] == more.last());
            if more.contains(name) {
                let i = choose|i: int| 0 <= i < more.len() && more[i] == name;
                if i < rest.len() {
                    assert(rest[i] == name);
                }
            }
        }
        if before.contains(name) {
            let i = choose|i: int| 0 <= i < before.len() && before[i] == name;
            assert(after[i] == name);
        }
        if !before.contains(more.last()) {
            assert(after[before.len() as int] == more.last());
            if after.contains(name) && !before.contains(name) {
                let i = choose|i: int| 0 <= i < after.len() && after[i] == name;
                if i < before.len() {
                    assert(before[i] == name);
                }
            }
        }
    }
}

/// An agent may use the tools that it is given, is to ask for those that match
/// its patterns, and may use no others. With a star among its tools it may use
/// whatever a star matches.
pub proof fn agents_may_use_their_tools(
    allowed: Seq<Seq<char>>,
    asked: Seq<Seq<char>>,
    approver: bool,
    name: Seq<char>,
    approved: bool,
)
    ensures
        ({
            let c = agent_checker(allowed, asked, approver);
            &&& !allowed.contains("*"@) ==> (refusal(c, name, approved) is None <==> allowed.contains(
                name,
            ) || (approver && approved && exists|k: int|
                0 <= k < asked.len() && pattern::wildcard(#[trigger] asked[k], name)))
            &&& allowed.contains("*"@) && pattern::wildcard("*"@, name) ==> refusal(
                c,
                name,
                approved,
            ) is None
        }),
{
    let c = agent_checker(allowed, asked, approver);
    let none = Seq::<Seq<char>>::empty();
    assert(!none.contains(name));
    first_match_is_first(c.allowed_patterns, name);
    first_match_is_first(asked, name);
    first_rule_is_first(c.rules, name);
    if allowed.contains("*"@) {
        assert(c.allowed_patterns[0] == "*"@);
    } else {
        names_are_added(none, allowed, name);
    }
}

} // verus!
