//! The configuration in force, and what follows from it.

use vstd::prelude::*;
use vstd::string::*;

use crate::color_themes::ColorThemes;
use crate::config_types::{commands_view, contains_command, BindingModeConfig, CommandView,
    InvokeCommand, KeybindingConfig, MatchType, MatchView, NativeWindowProperties, ParsedConfig,
    RuleView, WindowMatchConfig, WindowRuleConfig, WindowRuleEvent, WorkspaceConfig};
use crate::container::Workspace;
use crate::text::{decimal, decimal_is_injective, format_u32, same_text};
use crate::window_state::FloatingState;
use crate::workspace_order::{deduped, first_index, is_name_order, lemma_first_index, name_order,
    reordered, sorted_and_deduped, texts};

verus! {

/// Why no configuration could be read.
#[derive(Clone, Copy, Debug, PartialEq, Eq, Structural)]
pub enum ConfigError {
    /// There is no home directory.
    NoHome,
    /// There was no file, and none could be made.
    NotCreated,
    Unreadable,
    Invalid,
}

/// Where the configuration is: where the user said, or else where the
/// environment says, or else at the place for it in the home directory. Without
/// a home directory it is nowhere.
pub fn config_path(
    argument: Option<String>,
    variable: Option<String>,
    default_path: Option<String>,
) -> (result: Result<String, ConfigError>)
    ensures
        result == (match default_path {
            None => Err(ConfigError::NoHome),
            Some(default) => Ok(
                match argument {
                    Some(path) => path,
                    None => match variable {
                        Some(path) => path,
                        None => default,
                    },
                },
            ),
        }),
{
    let default: String = match default_path {
        Some(path) => path,
        None => {
            return Err(ConfigError::NoHome);
        },
    };
    match argument {
        Some(path) => Ok(path),
        None => match variable {
            Some(path) => Ok(path),
            None => Ok(default),
        },
    }
}

/// The configuration in force.
#[derive(Debug)]
pub struct UserConfig {
    /// Where it was read from.
    pub path: String,
    pub value: ParsedConfig,
    /// As it was written.
    pub value_str: String,
    /// The themes of the user, from a file of their own.
    pub color_themes: ColorThemes,
    /// The rules that apply besides those of the user.
    pub default_rules: Vec<WindowRuleConfig>,
}

/// The rules that a list of them stands for.
pub open spec fn rules_view(rules: Seq<WindowRuleConfig>) -> Seq<RuleView> {
    rules.map_values(|r: WindowRuleConfig| r@)
}

/// Matches windows of the class `name`.
pub open spec fn class_match(name: Seq<char>) -> MatchView {
    MatchView { window_process: None, window_class: Some(name), window_title: None }
}

/// Matches windows of the process `name`.
pub open spec fn process_match(name: Seq<char>) -> MatchView {
    MatchView { window_process: Some(name), window_class: None, window_title: None }
}

/// The rules that always apply: system dialogs float, and windows of the shell
/// are left alone.
pub open spec fn default_rules(floating: FloatingState) -> Seq<RuleView> {
    seq![
        RuleView {
            commands: seq![
                CommandView::SetFloating {
                    centered: Some(floating.centered),
                    shown_on_top: Some(floating.shown_on_top),
                    x_pos: None,
                    y_pos: None,
                    width: None,
                    height: None,
                },
            ],
            match_window: seq![class_match("OperationStatusWindow"@), class_match("#32770"@)],
            on: seq![WindowRuleEvent::Manage],
            run_once: true,
        },
        RuleView {
            commands: seq![CommandView::Ignore],
            match_window: seq![
                process_match("SearchApp"@),
                process_match("SearchHost"@),
                process_match("ShellExperienceHost"@),
                process_match("StartMenuExperienceHost"@),
                process_match("ScreenClippingHost"@),
                process_match("LockApp"@),
            ],
            on: seq![WindowRuleEvent::Manage],
            run_once: true,
        },
    ]
}

fn new_class_match(name: &str) -> (result: WindowMatchConfig)
    ensures
        result@ == class_match(name@),
{
    WindowMatchConfig {
        window_process: None,
        window_class: Some(MatchType::Equals { equals: name.to_owned() }),
        window_title: None,
    }
}

fn new_process_match(name: &str) -> (result: WindowMatchConfig)
    ensures
        result@ == process_match(name@),
{
    WindowMatchConfig {
        window_process: Some(MatchType::Equals { equals: name.to_owned() }),
        window_class: None,
        window_title: None,
    }
}

/// Makes the rules that always apply.
pub fn default_window_rules(floating: FloatingState) -> (result: Vec<WindowRuleConfig>)
    ensures
        rules_view(result@) == default_rules(floating),
{
    let mut float_commands: Vec<InvokeCommand> = Vec::new();
    float_commands.push(
        InvokeCommand::SetFloating {
            centered: Some(floating.centered),
            shown_on_top: Some(floating.shown_on_top),
            x_pos: None,
            y_pos: None,
            width: None,
            height: None,
        },
    );
    let mut float_matches: Vec<WindowMatchConfig> = Vec::new();
    // Shown while files are moved and deleted.
    float_matches.push(new_class_match("OperationStatusWindow"));
    // System dialogs, such as those that open and save files.
    float_matches.push(new_class_match("#32770"));
    let mut float_on: Vec<WindowRuleEvent> = Vec::new();
    float_on.push(WindowRuleEvent::Manage);
    let float_rule = WindowRuleConfig {
        commands: float_commands,
        match_window: float_matches,
        on: float_on,
        run_once: true,
    };

    let mut ignore_commands: Vec<InvokeCommand> = Vec::new();
    ignore_commands.push(InvokeCommand::Ignore);
    let mut ignore_matches: Vec<WindowMatchConfig> = Vec::new();
    ignore_matches.push(new_process_match("SearchApp"));
    ignore_matches.push(new_process_match("SearchHost"));
    ignore_matches.push(new_process_match("ShellExperienceHost"));
    // The start menu.
    ignore_matches.push(new_process_match("StartMenuExperienceHost"));
    // The snipping tool.
    ignore_matches.push(new_process_match("ScreenClippingHost"));
    // The lock screen.
    ignore_matches.push(new_process_match("LockApp"));
    let mut ignore_on: Vec<WindowRuleEvent> = Vec::new();
    ignore_on.push(WindowRuleEvent::Manage);
    let ignore_rule = WindowRuleConfig {
        commands: ignore_commands,
        match_window: ignore_matches,
        on: ignore_on,
        run_once: true,
    };
    proof {
        let expected = default_rules(floating);
        assert(float_rule@.commands =~= expected[0].commands);
        assert(float_rule@.match_window =~= expected[0].match_window);
        assert(float_rule@.on =~= expected[0].on);
        assert(ignore_rule@.commands =~= expected[1].commands);
        assert(ignore_rule@.match_window =~= expected[1].match_window);
        assert(ignore_rule@.on =~= expected[1].on);
    }
    let mut rules: Vec<WindowRuleConfig> = Vec::new();
    rules.push(float_rule);
    rules.push(ignore_rule);
    proof {
        assert(rules_view(rules@) =~= default_rules(floating));
    }
    rules
}

/// How often `event` occurs in `on`.
pub open spec fn occurrences(on: Seq<WindowRuleEvent>, event: WindowRuleEvent) -> nat
    decreases on.len(),
{
    if on.len() == 0 {
        0
    } else {
        occurrences(on.drop_last(), event) + (if on.last() == event {
            1nat
        } else {
            0
        })
    }
}

/// The rules among `rules` for `event`, in order, each as often as it names it.
pub open spec fn rules_on(rules: Seq<RuleView>, event: WindowRuleEvent) -> Seq<RuleView>
    decreases rules.len(),
{
    if rules.len() == 0 {
        Seq::empty()
    } else {
        rules_on(rules.drop_last(), event) + Seq::new(
            occurrences(rules.last().on, event),
            |i: int| rules.last(),
        )
    }
}

/// The rules that references to them stand for.
pub open spec fn rule_refs_view(rules: Seq<&WindowRuleConfig>) -> Seq<RuleView> {
    rules.map_values(|r: &WindowRuleConfig| r@)
}

/// Lists the rules for `event` behind what `out` holds.
fn collect_rules_on<'a>(
    rules: &'a Vec<WindowRuleConfig>,
    event: WindowRuleEvent,
    out: &mut Vec<&'a WindowRuleConfig>,
)
    ensures
        rule_refs_view(final(out)@) == rule_refs_view(old(out)@) + rules_on(
            rules_view(rules@),
            event,
        ),
{
    let ghost start = rule_refs_view(out@);
    let ghost views = rules_view(rules@);
    let mut i: usize = 0;
    proof {
        assert(views.subrange(0, 0) =~= Seq::<RuleView>::empty());
        assert(start + Seq::<RuleView>::empty() =~= start);
    }
    while i < rules.len()
        invariant
            i <= rules@.len(),
            views == rules_view(rules@),
            rule_refs_view(out@) == start + rules_on(views.subrange(0, i as int), event),
        decreases rules@.len() - i,
    {
        let rule: &'a WindowRuleConfig = &rules[i];
        let ghost before = rule_refs_view(out@);
        let mut k: usize = 0;
        proof {
            assert(rule.on@.subrange(0, 0) =~= Seq::<WindowRuleEvent>::empty());
            assert(before + Seq::new(0, |q: int| rule@) =~= before);
        }
        while k < rule.on.len()
            invariant
                k <= rule.on@.len(),
                rule_refs_view(out@) == before + Seq::new(
                    occurrences(rule.on@.subrange(0, k as int), event),
                    |q: int| rule@,
                ),
            decreases rule.on@.len() - k,
        {
            proof {
                let next = rule.on@.subrange(0, k + 1);
                assert(next.drop_last() =~= rule.on@.subrange(0, k as int));
                assert(next.last() == rule.on@[k as int]);
            }
            let ghost prev = out@;
            if rule.on[k] == event {
                out.push(rule);
                proof {
                    assert(rule_refs_view(out@) =~= rule_refs_view(prev).push(rule@));
                }
            }
            proof {
                assert(rule_refs_view(out@) =~= before + Seq::new(
                    occurrences(rule.on@.subrange(0, k + 1), event),
                    |q: int| rule@,
                ));
            }
            k = k + 1;
        }
        proof {
            assert(rule.on@.subrange(0, k as int) =~= rule.on@);
            let next = views.subrange(0, i + 1);
            assert(next.drop_last() =~= views.subrange(0, i as int));
            assert(next.last() == rule@);
            assert(rule_refs_view(out@) =~= start + rules_on(next, event));
        }
        i = i + 1;
    }
    proof {
        assert(views.subrange(0, i as int) =~= views);
    }
}

/// Whether the process `name` is what `m` asks for. One process goes by two
/// spellings.
pub open spec fn process_matches(m: Option<Seq<char>>, name: Seq<char>) -> bool {
    match m {
        None => true,
        Some(p) => if name == "Zebar"@ {
            p == "Zebar"@ || p == "zebar"@
        } else {
            p == name
        },
    }
}

/// Whether the text `value` is what `m` asks for.
pub open spec fn text_matches(m: Option<Seq<char>>, value: Seq<char>) -> bool {
    match m {
        None => true,
        Some(t) => t == value,
    }
}

/// Whether the class of a window is what `m` asks for. On a system without window
/// classes, no window has the one that is asked for.
pub open spec fn class_matches(m: Option<Seq<char>>, class: Option<String>) -> bool {
    match m {
        None => true,
        Some(t) => class matches Some(c) && t == c@,
    }
}

/// Whether a window with `properties` is what `m` asks for.
pub open spec fn match_holds(m: MatchView, properties: NativeWindowProperties) -> bool {
    &&& process_matches(m.window_process, properties.process_name@)
    &&& class_matches(m.window_class, properties.class_name)
    &&& text_matches(m.window_title, properties.title@)
}

/// Whether a window with `properties` is one of those the rule is for.
pub open spec fn rule_applies(rule: RuleView, properties: NativeWindowProperties) -> bool {
    exists|k: int|
        0 <= k < rule.match_window.len() && match_holds(
            #[trigger] rule.match_window[k],
            properties,
        )
}

/// Whether a window with `properties` is one of those the rule is for.
pub fn rule_matches(rule: &WindowRuleConfig, properties: &NativeWindowProperties) -> (result: bool)
    ensures
        result == rule_applies(rule@, *properties),
{
    let mut i: usize = 0;
    while i < rule.match_window.len()
        invariant
            i <= rule.match_window@.len(),
            forall|k: int|
                0 <= k < i ==> !match_holds(#[trigger] rule@.match_window[k], *properties),
        decreases rule.match_window@.len() - i,
    {
        let m = &rule.match_window[i];
        let process: bool = match &m.window_process {
            None => true,
            Some(t) => if same_text(&properties.process_name, "Zebar") {
                t.is_match("Zebar") || t.is_match("zebar")
            } else {
                t.is_match(properties.process_name.as_str())
            },
        };
        let class: bool = match &m.window_class {
            None => true,
            Some(t) => match &properties.class_name {
                Some(class) => t.is_match(class.as_str()),
                None => false,
            },
        };
        let title: bool = match &m.window_title {
            None => true,
            Some(t) => t.is_match(properties.title.as_str()),
        };
        proof {
            assert(rule@.match_window[i as int] == m@);
        }
        if process && class && title {
            return true;
        }
        i = i + 1;
    }
    false
}

/// The names of the configured workspaces.
pub open spec fn config_names(configs: Seq<WorkspaceConfig>) -> Seq<Seq<char>> {
    configs.map_values(|c: WorkspaceConfig| c.name@)
}

/// A workspace of the tree, with its name.
#[derive(Debug)]
pub struct NamedWorkspace {
    pub workspace: Workspace,
    pub name: String,
}

pub open spec fn workspace_names(workspaces: Seq<NamedWorkspace>) -> Seq<Seq<char>> {
    workspaces.map_values(|w: NamedWorkspace| w.name@)
}

/// The configured workspaces that are not among `active`, by their places.
pub open spec fn inactive_indices(configured: Seq<Seq<char>>, active: Seq<Seq<char>>) -> Seq<int>
    decreases configured.len(),
{
    if configured.len() == 0 {
        Seq::empty()
    } else {
        let rest = inactive_indices(configured.drop_last(), active);
        if active.contains(configured.last()) {
            rest
        } else {
            rest.push(configured.len() - 1)
        }
    }
}

/// The first of the places `ids` that `pred` holds of.
pub open spec fn first_int(ids: Seq<int>, pred: spec_fn(int) -> bool) -> Option<int>
    decreases ids.len(),
{
    if ids.len() == 0 {
        None
    } else if pred(ids[0]) {
        Some(ids[0])
    } else {
        first_int(ids.drop_first(), pred)
    }
}

/// Picks the configurations that are bound to the monitor with the number `n`.
pub open spec fn bound_to(configs: Seq<WorkspaceConfig>, n: usize) -> spec_fn(int) -> bool {
    |i: int| configs[i].bind_to_monitor matches Some(m) && m == n
}

/// Picks the configurations that are not bound to a monitor.
pub open spec fn is_unbound(configs: Seq<WorkspaceConfig>) -> spec_fn(int) -> bool {
    |i: int| configs[i].bind_to_monitor is None
}

fn is_among(name: &String, names: &Vec<String>) -> (result: bool)
    ensures
        result == texts(names@).contains(name@),
{
    let mut i: usize = 0;
    while i < names.len()
        invariant
            i <= names@.len(),
            forall|k: int| 0 <= k < i ==> texts(names@)[k] != name@,
        decreases names@.len() - i,
    {
        if names[i] == *name {
            proof {
                assert(texts(names@)[i as int] == name@);
            }
            return true;
        }
        i = i + 1;
    }
    false
}

impl UserConfig {
    /// Whether the rules that always apply are those that belong to the
    /// configuration.
    pub open spec fn wf(self) -> bool {
        rules_view(self.default_rules@) == default_rules(self.value.floating_defaults)
    }

    /// The rules for `event`, those of the user first.
    pub open spec fn rules_for(self, event: WindowRuleEvent) -> Seq<RuleView> {
        rules_on(rules_view(self.value.window_rules@), event) + rules_on(
            default_rules(self.value.floating_defaults),
            event,
        )
    }

    /// The names of the configured workspaces.
    pub open spec fn names(self) -> Seq<Seq<char>> {
        config_names(self.value.workspaces@)
    }

    /// Puts a configuration in force, if one could be read from `path`.
    pub fn new(
        path: String,
        read: Result<(ParsedConfig, String), ConfigError>,
        color_themes: ColorThemes,
    ) -> (result: Result<UserConfig, ConfigError>)
        ensures
            match read {
                Ok((value, value_str)) => result matches Ok(config) && {
                    &&& config.wf()
                    &&& config.path == path
                    &&& config.value == value
                    &&& config.value_str == value_str
                    &&& config.color_themes == color_themes
                },
                Err(e) => result == Err::<UserConfig, ConfigError>(e),
            },
    {
        match read {
            Ok((value, value_str)) => {
                let default_rules = default_window_rules(value.floating_defaults);
                Ok(UserConfig { path, value, value_str, color_themes, default_rules })
            },
            Err(e) => Err(e),
        }
    }

    /// Puts what was read from the same place in force. If it could not be
    /// read, everything stays as it was.
    pub fn reload(&mut self, read: Result<(ParsedConfig, String), ConfigError>) -> (result: Result<
        (),
        ConfigError,
    >)
        ensures
            match read {
                Ok((value, value_str)) => {
                    &&& result is Ok
                    &&& final(self).wf()
                    &&& final(self).path == old(self).path
                    &&& final(self).value == value
                    &&& final(self).value_str == value_str
                    &&& final(self).color_themes == old(self).color_themes
                },
                Err(e) => {
                    &&& result == Err::<(), ConfigError>(e)
                    &&& *final(self) == *old(self)
                },
            },
    {
        match read {
            Ok((value, value_str)) => {
                self.default_rules = default_window_rules(value.floating_defaults);
                self.value = value;
                self.value_str = value_str;
                Ok(())
            },
            Err(e) => Err(e),
        }
    }

    /// The rules for `event`, those of the user first.
    pub fn window_rules_by_event(&self, event: WindowRuleEvent) -> (result: Vec<&WindowRuleConfig>)
        requires
            self.wf(),
        ensures
            rule_refs_view(result@) == self.rules_for(event),
    {
        let mut out: Vec<&WindowRuleConfig> = Vec::new();
        collect_rules_on(&self.value.window_rules, event, &mut out);
        proof {
            assert(rule_refs_view(Seq::<&WindowRuleConfig>::empty()) + rules_on(
                rules_view(self.value.window_rules@),
                event,
            ) =~= rules_on(rules_view(self.value.window_rules@), event));
        }
        collect_rules_on(&self.default_rules, event, &mut out);
        out
    }
}

/// Picks the rules that apply to a window and that it has not run yet.
pub open spec fn is_pending(
    properties: NativeWindowProperties,
    done: Seq<RuleView>,
) -> spec_fn(RuleView) -> bool {
    |rule: RuleView| !done.contains(rule) && rule_applies(rule, properties)
}

fn has_rule(rules: &Vec<WindowRuleConfig>, rule: &WindowRuleConfig) -> (result: bool)
    ensures
        result == rules_view(rules@).contains(rule@),
{
    let mut i: usize = 0;
    while i < rules.len()
        invariant
            i <= rules@.len(),
            forall|k: int| 0 <= k < i ==> rules_view(rules@)[k] != rule@,
        decreases rules@.len() - i,
    {
        if rules[i].is_same(rule) {
            proof {
                assert(rules_view(rules@)[i as int] == rule@);
            }
            return true;
        }
        i = i + 1;
    }
    false
}

proof fn lemma_filter_rules_step(
    rules: Seq<RuleView>,
    pred: spec_fn(RuleView) -> bool,
    i: int,
)
    requires
        0 <= i < rules.len(),
    ensures
        rules.subrange(0, i + 1).filter(pred) == (if pred(rules[i]) {
            rules.subrange(0, i).filter(pred).push(rules[i])
        } else {
            rules.subrange(0, i).filter(pred)
        }),
{
    reveal(Seq::filter);
    assert(rules.subrange(0, i + 1).drop_last() =~= rules.subrange(0, i));
}

/// Whether `rule` has a window managed that would be passed over.
pub open spec fn forces_management(rule: RuleView) -> bool {
    rule.commands.contains(CommandView::ForceManage)
}

/// The name that a workspace without a configuration of its own gets: the
/// lowest positive number that no other goes by.
pub open spec fn is_lowest_free(n: nat, configured: Seq<Seq<char>>, active: Seq<Seq<char>>) -> bool {
    &&& 1 <= n <= u32::MAX
    &&& !configured.contains(decimal(n)) && !active.contains(decimal(n))
    &&& forall|k: nat|
        1 <= k < n ==> configured.contains(#[trigger] decimal(k)) || active.contains(decimal(k))
}

impl UserConfig {
    /// The rules that are to be run for a window when `event` occurs: those
    /// that apply to it and that it has not run yet.
    pub fn pending_window_rules(
        &self,
        properties: &NativeWindowProperties,
        done: &Vec<WindowRuleConfig>,
        event: WindowRuleEvent,
    ) -> (result: Vec<&WindowRuleConfig>)
        requires
            self.wf(),
        ensures
            rule_refs_view(result@) == self.rules_for(event).filter(
                is_pending(*properties, rules_view(done@)),
            ),
    {
        let rules = self.window_rules_by_event(event);
        let ghost views = rule_refs_view(rules@);
        let ghost pred = is_pending(*properties, rules_view(done@));
        let mut result: Vec<&WindowRuleConfig> = Vec::new();
        let mut i: usize = 0;
        proof {
            reveal(Seq::filter);
            assert(rule_refs_view(result@) =~= views.subrange(0, 0).filter(pred));
        }
        while i < rules.len()
            invariant
                i <= rules@.len(),
                views == rule_refs_view(rules@),
                pred == is_pending(*properties, rules_view(done@)),
                rule_refs_view(result@) == views.subrange(0, i as int).filter(pred),
            decreases rules@.len() - i,
        {
            let rule: &WindowRuleConfig = rules[i];
            proof {
                assert(views[i as int] == rule@);
                lemma_filter_rules_step(views, pred, i as int);
            }
            let ghost before = result@;
            if !has_rule(done, rule) && rule_matches(rule, properties) {
                result.push(rule);
                proof {
                    assert(rule_refs_view(result@) =~= rule_refs_view(before).push(rule@));
                }
            }
            i = i + 1;
        }
        proof {
            assert(views.subrange(0, i as int) =~= views);
        }
        result
    }

    /// Whether a rule has a window with `properties` managed that would be
    /// passed over.
    pub fn is_force_managed(&self, properties: &NativeWindowProperties) -> (result: bool)
        requires
            self.wf(),
        ensures
            result == exists|k: int|
                #![trigger self.rules_for(WindowRuleEvent::Manage)[k]]
                0 <= k < self.rules_for(WindowRuleEvent::Manage).len() && forces_management(
                    self.rules_for(WindowRuleEvent::Manage)[k],
                ) && rule_applies(self.rules_for(WindowRuleEvent::Manage)[k], *properties),
    {
        let rules = self.window_rules_by_event(WindowRuleEvent::Manage);
        let ghost views = rule_refs_view(rules@);
        let mut i: usize = 0;
        while i < rules.len()
            invariant
                i <= rules@.len(),
                views == rule_refs_view(rules@),
                views == self.rules_for(WindowRuleEvent::Manage),
                forall|k: int|
                    0 <= k < i ==> !(forces_management(#[trigger] views[k]) && rule_applies(
                        views[k],
                        *properties,
                    )),
            decreases rules@.len() - i,
        {
            let rule: &WindowRuleConfig = rules[i];
            proof {
                assert(views[i as int] == rule@);
            }
            if contains_command(&rule.commands, &InvokeCommand::ForceManage) && rule_matches(
                rule,
                properties,
            ) {
                proof {
                    assert(forces_management(
                        self.rules_for(WindowRuleEvent::Manage)[i as int],
                    ));
                }
                return true;
            }
            i = i + 1;
        }
        false
    }

    /// The names of the configured workspaces.
    fn config_name_list(&self) -> (result: Vec<String>)
        ensures
            texts(result@) == self.names(),
    {
        let mut result: Vec<String> = Vec::new();
        let mut i: usize = 0;
        while i < self.value.workspaces.len()
            invariant
                i <= self.value.workspaces@.len(),
                texts(result@) =~= self.names().subrange(0, i as int),
            decreases self.value.workspaces@.len() - i,
        {
            let ghost before = result@;
            result.push(self.value.workspaces[i].name.clone());
            proof {
                assert(texts(result@) =~= texts(before).push(self.names()[i as int]));
            }
            i = i + 1;
        }
        proof {
            assert(self.names().subrange(0, i as int) =~= self.names());
        }
        result
    }

    /// The places of the configured workspaces that are not active.
    fn inactive_index_list(&self, active: &Vec<String>) -> (result: Vec<usize>)
        ensures
            result@.map_values(|i: usize| i as int) == inactive_indices(
                self.names(),
                texts(active@),
            ),
            forall|k: int|
                0 <= k < result@.len() ==> #[trigger] result@[k] < self.value.workspaces@.len(),
    {
        let mut result: Vec<usize> = Vec::new();
        let ghost names = self.names();
        let mut i: usize = 0;
        proof {
            assert(names.subrange(0, 0) =~= Seq::<Seq<char>>::empty());
        }
        while i < self.value.workspaces.len()
            invariant
                i <= self.value.workspaces@.len(),
                names == self.names(),
                result@.map_values(|i: usize| i as int) =~= inactive_indices(
                    names.subrange(0, i as int),
                    texts(active@),
                ),
                forall|k: int|
                    0 <= k < result@.len() ==> #[trigger] result@[k] < self.value.workspaces@.len(),
            decreases self.value.workspaces@.len() - i,
        {
            proof {
                let next = names.subrange(0, i + 1);
                assert(next.drop_last() =~= names.subrange(0, i as int));
                assert(next.last() == self.value.workspaces@[i as int].name@);
            }
            let ghost before = result@;
            if !is_among(&self.value.workspaces[i].name, active) {
                result.push(i);
                proof {
                    assert(result@.map_values(|i: usize| i as int) =~= before.map_values(
                        |i: usize| i as int,
                    ).push(i as int));
                }
            }
            i = i + 1;
        }
        proof {
            assert(names.subrange(0, i as int) =~= names);
        }
        result
    }

    /// The configured workspaces that are not active, in order.
    pub fn inactive_workspace_configs(&self, active: &Vec<String>) -> (result: Vec<
        &WorkspaceConfig,
    >)
        ensures
            result@.len() == inactive_indices(self.names(), texts(active@)).len(),
            forall|k: int|
                0 <= k < result@.len() ==> *(#[trigger] result@[k])
                    == self.value.workspaces@[inactive_indices(self.names(), texts(active@))[k]],
    {
        let ids = self.inactive_index_list(active);
        let ghost spec_ids = inactive_indices(self.names(), texts(active@));
        let mut result: Vec<&WorkspaceConfig> = Vec::new();
        let mut i: usize = 0;
        while i < ids.len()
            invariant
                i <= ids@.len(),
                result@.len() == i,
                ids@.map_values(|i: usize| i as int) == spec_ids,
                forall|k: int|
                    0 <= k < ids@.len() ==> #[trigger] ids@[k] < self.value.workspaces@.len(),
                forall|k: int|
                    0 <= k < i ==> *(#[trigger] result@[k])
                        == self.value.workspaces@[spec_ids[k]],
            decreases ids@.len() - i,
        {
            proof {
                assert(spec_ids[i as int] == ids@[i as int] as int);
            }
            result.push(&self.value.workspaces[ids[i]]);
            i = i + 1;
        }
        proof {
            assert(spec_ids.len() == ids@.len());
        }
        result
    }

    /// The first configured workspace that is not active and belongs to the
    /// monitor with the number `monitor_index`.
    pub fn workspace_config_for_monitor(
        &self,
        monitor_index: usize,
        active: &Vec<String>,
    ) -> (result: Option<&WorkspaceConfig>)
        ensures
            match first_int(
                inactive_indices(self.names(), texts(active@)),
                bound_to(self.value.workspaces@, monitor_index),
            ) {
                Some(i) => result == Some(&self.value.workspaces@[i]),
                None => result is None,
            },
    {
        let ids = self.inactive_index_list(active);
        let ghost all = inactive_indices(self.names(), texts(active@));
        let ghost pred = bound_to(self.value.workspaces@, monitor_index);
        let mut i: usize = 0;
        proof {
            assert(all.subrange(0, all.len() as int) =~= all);
            assert(all.len() == ids@.len());
        }
        while i < ids.len()
            invariant
                i <= ids@.len() == all.len(),
                pred == bound_to(self.value.workspaces@, monitor_index),
                all == inactive_indices(self.names(), texts(active@)),
                ids@.map_values(|i: usize| i as int) == all,
                forall|k: int|
                    0 <= k < ids@.len() ==> #[trigger] ids@[k] < self.value.workspaces@.len(),
                first_int(all.subrange(i as int, all.len() as int), pred) == first_int(all, pred),
            decreases ids@.len() - i,
        {
            proof {
                let rest = all.subrange(i as int, all.len() as int);
                assert(rest[0] == ids@[i as int] as int);
                assert(rest.drop_first() =~= all.subrange(i + 1, all.len() as int));
            }
            let config = &self.value.workspaces[ids[i]];
            let is_bound: bool = match config.bind_to_monitor {
                Some(m) => m as usize == monitor_index,
                None => false,
            };
            if is_bound {
                return Some(config);
            }
            i = i + 1;
        }
        proof {
            assert(all.subrange(i as int, all.len() as int) =~= Seq::<int>::empty());
        }
        None
    }

    /// The first configured workspace that is not active, those that belong to
    /// no monitor before all others.
    pub fn next_inactive_workspace_config(&self, active: &Vec<String>) -> (result: Option<
        &WorkspaceConfig,
    >)
        ensures
            ({
                let all = inactive_indices(self.names(), texts(active@));
                match first_int(all, is_unbound(self.value.workspaces@)) {
                    Some(i) => result == Some(&self.value.workspaces@[i]),
                    None => if all.len() > 0 {
                        result == Some(&self.value.workspaces@[all[0]])
                    } else {
                        result is None
                    },
                }
            }),
    {
        let ids = self.inactive_index_list(active);
        let ghost all = inactive_indices(self.names(), texts(active@));
        let ghost pred = is_unbound(self.value.workspaces@);
        let mut i: usize = 0;
        proof {
            assert(all.subrange(0, all.len() as int) =~= all);
            assert(all.len() == ids@.len());
        }
        while i < ids.len()
            invariant
                i <= ids@.len() == all.len(),
                pred == is_unbound(self.value.workspaces@),
                all == inactive_indices(self.names(), texts(active@)),
                ids@.map_values(|i: usize| i as int) == all,
                forall|k: int|
                    0 <= k < ids@.len() ==> #[trigger] ids@[k] < self.value.workspaces@.len(),
                first_int(all.subrange(i as int, all.len() as int), pred) == first_int(all, pred),
            decreases ids@.len() - i,
        {
            proof {
                let rest = all.subrange(i as int, all.len() as int);
                assert(rest[0] == ids@[i as int] as int);
                assert(rest.drop_first() =~= all.subrange(i + 1, all.len() as int));
            }
            let config = &self.value.workspaces[ids[i]];
            if config.bind_to_monitor.is_none() {
                return Some(config);
            }
            i = i + 1;
        }
        proof {
            assert(all.subrange(i as int, all.len() as int) =~= Seq::<int>::empty());
        }
        if ids.len() > 0 {
            proof {
                assert(all[0] == ids@[0] as int);
            }
            Some(&self.value.workspaces[ids[0]])
        } else {
            None
        }
    }

    /// The place of the workspace `name` in the configuration.
    pub fn workspace_config_index(&self, name: &String) -> (result: Option<usize>)
        ensures
            match result {
                Some(i) => first_index(self.names(), name@, 0) == Some(i as int),
                None => first_index(self.names(), name@, 0) is None,
            },
    {
        let mut i: usize = 0;
        while i < self.value.workspaces.len()
            invariant
                i <= self.value.workspaces@.len(),
                first_index(self.names(), name@, i as int) == first_index(self.names(), name@, 0),
            decreases self.value.workspaces@.len() - i,
        {
            if self.value.workspaces[i].name == *name {
                return Some(i);
            }
            i = i + 1;
        }
        None
    }

    /// Puts workspaces in order: the configured ones as they are configured,
    /// then the others by their numbers, then by their names.
    pub fn sort_workspaces(&self, workspaces: &mut Vec<NamedWorkspace>)
        ensures
            exists|order: Seq<usize>| #[trigger]
                is_name_order(self.names(), workspace_names(old(workspaces)@), order)
                    && final(workspaces)@ == reordered(old(workspaces)@, order),
    {
        let configured = self.config_name_list();
        let ghost start = workspaces@;
        let mut names: Vec<String> = Vec::new();
        let mut i: usize = 0;
        while i < workspaces.len()
            invariant
                i <= workspaces@.len(),
                workspaces@ == start,
                texts(names@) =~= workspace_names(start).subrange(0, i as int),
            decreases workspaces@.len() - i,
        {
            let ghost before = names@;
            names.push(workspaces[i].name.clone());
            proof {
                assert(texts(names@) =~= texts(before).push(workspace_names(start)[i as int]));
            }
            i = i + 1;
        }
        proof {
            assert(texts(names@) =~= workspace_names(start));
        }
        let order = name_order(&configured, &names);
        let mut sorted: Vec<NamedWorkspace> = Vec::new();
        let mut k: usize = 0;
        while k < order.len()
            invariant
                k <= order@.len(),
                workspaces@ == start,
                is_name_order(self.names(), workspace_names(start), order@),
                sorted@.len() == k,
                forall|j: int| 0 <= j < k ==> #[trigger] sorted@[j] == start[order@[j] as int],
            decreases order@.len() - k,
        {
            let w = &workspaces[order[k]];
            sorted.push(NamedWorkspace { workspace: w.workspace, name: w.name.clone() });
            k = k + 1;
        }
        proof {
            assert(sorted@ =~= reordered(start, order@));
        }
        *workspaces = sorted;
    }

    /// The names of all workspaces in order: the configured ones, and those
    /// that are active without being configured.
    pub fn ordered_workspace_names(&self, active: &Vec<String>) -> (result: Vec<String>)
        ensures
            exists|order: Seq<usize>| #[trigger]
                is_name_order(
                    self.names(),
                    all_names(self.names(), texts(active@)),
                    order,
                ) && texts(result@) == deduped(
                    reordered(all_names(self.names(), texts(active@)), order),
                ),
    {
        let configured = self.config_name_list();
        let mut names = self.config_name_list();
        let ghost cfg = self.names();
        let ghost pred = is_not_configured(cfg);
        let ghost act = texts(active@);
        let mut i: usize = 0;
        proof {
            reveal(Seq::filter);
            assert(texts(names@) =~= cfg + act.subrange(0, 0).filter(pred));
        }
        while i < active.len()
            invariant
                i <= active@.len(),
                cfg == self.names(),
                act == texts(active@),
                pred == is_not_configured(cfg),
                texts(names@) == cfg + act.subrange(0, i as int).filter(pred),
            decreases active@.len() - i,
        {
            proof {
                lemma_filter_texts_step(act, pred, i as int);
                lemma_first_index(cfg, act[i as int], 0);
            }
            let ghost before = names@;
            if self.workspace_config_index(&active[i]).is_none() {
                names.push(active[i].clone());
                proof {
                    assert(texts(names@) =~= texts(before).push(act[i as int]));
                    assert(texts(names@) =~= cfg + act.subrange(0, i + 1).filter(pred));
                }
            }
            i = i + 1;
        }
        proof {
            assert(act.subrange(0, i as int) =~= act);
            assert(texts(names@) == all_names(self.names(), texts(active@)));
        }
        sorted_and_deduped(&configured, &names)
    }

    /// The configuration of a workspace that is not configured: none where such
    /// workspaces are switched off or one by that name is active.
    pub fn dynamic_workspace_config(&self, name: &String, active: &Vec<String>) -> (result: Option<
        WorkspaceConfig,
    >)
        ensures
            match result {
                Some(config) => {
                    &&& self.value.dynamic_workspaces && !texts(active@).contains(name@)
                    &&& config.name@ == name@
                    &&& config.display_name is None
                    &&& config.bind_to_monitor is None
                    &&& !config.keep_alive
                },
                None => !self.value.dynamic_workspaces || texts(active@).contains(name@),
            },
    {
        if self.value.dynamic_workspaces && !is_among(name, active) {
            Some(
                WorkspaceConfig {
                    name: name.clone(),
                    display_name: None,
                    bind_to_monitor: None,
                    keep_alive: false,
                },
            )
        } else {
            None
        }
    }

    /// The name of a new workspace that is not configured: the lowest positive
    /// number that no configured or active workspace goes by. Empty only where
    /// all of them are taken.
    pub fn next_dynamic_workspace_name(&self, active: &Vec<String>) -> (result: String)
        ensures
            (exists|n: nat| #[trigger]
                is_lowest_free(n, self.names(), texts(active@)) && result@ == decimal(n)) || (
            result@.len() == 0 && forall|n: nat|
                1 <= n <= u32::MAX ==> self.names().contains(#[trigger] decimal(n)) || texts(
                    active@,
                ).contains(decimal(n))),
    {
        let ghost cfg = self.names();
        let ghost act = texts(active@);
        let mut n: u32 = 1;
        loop
            invariant
                1 <= n,
                cfg == self.names(),
                act == texts(active@),
                forall|k: nat|
                    1 <= k < n ==> cfg.contains(#[trigger] decimal(k)) || act.contains(decimal(k)),
            decreases u32::MAX - n,
        {
            let name = format_u32(n);
            proof {
                lemma_first_index(cfg, name@, 0);
            }
            if self.workspace_config_index(&name).is_none() && !is_among(&name, active) {
                proof {
                    assert(!cfg.contains(decimal(n as nat)));
                    assert(is_lowest_free(n as nat, cfg, act));
                }
                return name;
            }
            proof {
                let i = first_index(cfg, name@, 0);
                if i is Some {
                    assert(cfg[i->0] == name@);
                }
            }
            if n == u32::MAX {
                return String::new();
            }
            n = n + 1;
        }
    }

    /// The keys in force: those of the first mode that is on, or those of the
    /// configuration. While paused, only those that end the pause.
    pub fn active_keybinding_configs<'a>(
        &'a self,
        binding_modes: &'a Vec<BindingModeConfig>,
        is_paused: bool,
    ) -> (result: Vec<&'a KeybindingConfig>)
        ensures
            result@.map_values(|k: &KeybindingConfig| *k) == (if binding_modes@.len() > 0 {
                binding_modes@[0].keybindings@
            } else {
                self.value.keybindings@
            }).filter(is_in_force(is_paused)),
    {
        let source: &'a Vec<KeybindingConfig> = if binding_modes.len() > 0 {
            &binding_modes[0].keybindings
        } else {
            &self.value.keybindings
        };
        let ghost pred = is_in_force(is_paused);
        let mut result: Vec<&'a KeybindingConfig> = Vec::new();
        let mut i: usize = 0;
        proof {
            reveal(Seq::filter);
            assert(result@.map_values(|k: &KeybindingConfig| *k) =~= source@.subrange(
                0,
                0,
            ).filter(pred));
        }
        while i < source.len()
            invariant
                i <= source@.len(),
                pred == is_in_force(is_paused),
                result@.map_values(|k: &KeybindingConfig| *k) == source@.subrange(
                    0,
                    i as int,
                ).filter(pred),
            decreases source@.len() - i,
        {
            let kb: &'a KeybindingConfig = &source[i];
            proof {
                reveal(Seq::filter);
                assert(source@.subrange(0, i + 1).drop_last() =~= source@.subrange(0, i as int));
            }
            let ghost before = result@;
            if !is_paused || contains_command(&kb.commands, &InvokeCommand::WmTogglePause) {
                result.push(kb);
                proof {
                    assert(result@.map_values(|k: &KeybindingConfig| *k) =~= before.map_values(
                        |k: &KeybindingConfig| *k,
                    ).push(*kb));
                }
            }
            i = i + 1;
        }
        proof {
            assert(source@.subrange(0, i as int) =~= source@);
        }
        result
    }
}

/// Picks the keys that are in force.
pub open spec fn is_in_force(is_paused: bool) -> spec_fn(KeybindingConfig) -> bool {
    |kb: KeybindingConfig|
        !is_paused || commands_view(kb.commands@).contains(CommandView::WmTogglePause)
}

/// Picks the names that are not configured.
pub open spec fn is_not_configured(configured: Seq<Seq<char>>) -> spec_fn(Seq<char>) -> bool {
    |name: Seq<char>| !configured.contains(name)
}

/// The configured names, and those of `active` that are not configured.
pub open spec fn all_names(configured: Seq<Seq<char>>, active: Seq<Seq<char>>) -> Seq<Seq<char>> {
    configured + active.filter(is_not_configured(configured))
}

proof fn lemma_filter_texts_step(
    names: Seq<Seq<char>>,
    pred: spec_fn(Seq<char>) -> bool,
    i: int,
)
    requires
        0 <= i < names.len(),
    ensures
        names.subrange(0, i + 1).filter(pred) == (if pred(names[i]) {
            names.subrange(0, i).filter(pred).push(names[i])
        } else {
            names.subrange(0, i).filter(pred)
        }),
{
    reveal(Seq::filter);
    assert(names.subrange(0, i + 1).drop_last() =~= names.subrange(0, i));
}

/// Unless as many workspaces exist as there are numbers, a new one gets a name,
/// and one that no other goes by.
pub proof fn a_free_name_exists(configured: Seq<Seq<char>>, active: Seq<Seq<char>>)
    requires
        configured.len() + active.len() < u32::MAX,
    ensures
        exists|n: nat|
            1 <= n <= u32::MAX && !configured.contains(#[trigger] decimal(n)) && !active.contains(
                decimal(n),
            ),
{
    if forall|n: nat|
        1 <= n <= u32::MAX ==> configured.contains(#[trigger] decimal(n)) || active.contains(
            decimal(n),
        ) {
        let taken = configured + active;
        let numbers = vstd::set_lib::set_int_range(1, u32::MAX + 1);
        vstd::set_lib::lemma_int_range(1, u32::MAX + 1);
        let f = |n: int| decimal(n as nat);
        let forms = numbers.map(f);
        assert(vstd::relations::injective_on(f, numbers)) by {
            assert forall|a: int, b: int|
                numbers.contains(a) && numbers.contains(b) && #[trigger] f(a) == #[trigger] f(
                    b,
                ) implies a == b by {
                decimal_is_injective(a as nat, b as nat);
            }
        }
        vstd::set_lib::lemma_map_size(numbers, forms, f);
        taken.lemma_cardinality_of_set();
        assert(forms.subset_of(taken.to_set())) by {
            assert forall|x: Seq<char>| forms.contains(x) implies taken.to_set().contains(x) by {
                let n = choose|n: int| numbers.contains(n) && f(n) == x;
                let d = decimal(n as nat);
                assert(configured.contains(d) || active.contains(d));
                if configured.contains(d) {
                    let k = choose|k: int| 0 <= k < configured.len() && configured[k] == d;
                    assert(taken[k] == x);
                } else {
                    let k = choose|k: int| 0 <= k < active.len() && active[k] == d;
                    assert(taken[configured.len() + k] == x);
                }
            }
        }
        vstd::set_lib::lemma_len_subset(forms, taken.to_set());
    }
}

/// Configured workspaces come before all others.
pub proof fn configured_workspaces_come_first(
    configured: Seq<Seq<char>>,
    a: Seq<char>,
    b: Seq<char>,
)
    requires
        configured.len() <= usize::MAX,
        configured.contains(a),
        !configured.contains(b),
    ensures
        crate::workspace_order::name_less(configured, a, b),
{
    lemma_first_index(configured, a, 0);
    lemma_first_index(configured, b, 0);
    let k = choose|k: int| 0 <= k < configured.len() && configured[k] == a;
    assert(configured[k] == a);
    if first_index(configured, b, 0) is Some {
        assert(configured[first_index(configured, b, 0)->0] == b);
    }
}

/// No window is managed against the built-in checks unless a rule of the user
/// says so.
pub proof fn default_rules_force_nothing(floating: FloatingState, k: int)
    requires
        0 <= k < default_rules(floating).len(),
    ensures
        !forces_management(default_rules(floating)[k]),
{
    let commands = default_rules(floating)[k].commands;
    if commands.contains(CommandView::ForceManage) {
        let j = choose|j: int| 0 <= j < commands.len() && commands[j] == CommandView::ForceManage;
        assert(commands[j] == commands[0]);
    }
}

/// A rule is run on an event as often as it names it. Rules come in the order in
/// which they are written.
pub proof fn rules_come_on_their_events(
    rules: Seq<RuleView>,
    rule: RuleView,
    event: WindowRuleEvent,
    other: WindowRuleEvent,
)
    ensures
        rules_on(Seq::empty(), event) == Seq::<RuleView>::empty(),
        !rule.on.contains(event) ==> rules_on(rules.push(rule), event) == rules_on(rules, event),
        rule.on == seq![event] ==> rules_on(rules.push(rule), event) == rules_on(rules, event).push(
            rule,
        ),
        occurrences(rule.on.push(event), event) == occurrences(rule.on, event) + 1,
        other != event ==> occurrences(rule.on.push(other), event) == occurrences(rule.on, event),
{
    let next = rules.push(rule);
    assert(next.drop_last() =~= rules);
    assert(next.last() == rule);
    assert(rule.on.push(event).drop_last() =~= rule.on);
    assert(rule.on.push(other).drop_last() =~= rule.on);
    lemma_no_occurrence(rule.on, event);
    if !rule.on.contains(event) {
        assert(rules_on(next, event) =~= rules_on(rules, event));
    }
    if rule.on == seq![event] {
        assert(rule.on.drop_last() =~= Seq::<WindowRuleEvent>::empty());
        assert(occurrences(Seq::<WindowRuleEvent>::empty(), event) == 0);
        assert(occurrences(rule.on, event) == 1);
        assert(rules_on(next, event) =~= rules_on(rules, event).push(rule));
    }
}

proof fn lemma_no_occurrence(on: Seq<WindowRuleEvent>, event: WindowRuleEvent)
    ensures
        occurrences(on, event) == 0 <==> !on.contains(event),
    decreases on.len(),
{
    if on.len() > 0 {
        let rest = on.drop_last();
        lemma_no_occurrence(rest, event);
        if on.contains(event) {
            let k = choose|k: int| 0 <= k < on.len() && on[k] == event;
            if k < rest.len() {
                assert(rest[k] == event);
            }
        }
        if rest.contains(event) {
            let k = choose|k: int| 0 <= k < rest.len() && rest[k] == event;
            assert(on[k] == event);
        }
        if on.last() == event {
            assert(on[on.len() - 1] == event);
        }
    }
}

/// The rules of the user come before the default ones, which are run when a
/// window is managed and on no other event.
pub proof fn rules_of_the_user_come_first(config: UserConfig, event: WindowRuleEvent, k: int)
    ensures
        ({
            let own = rules_on(rules_view(config.value.window_rules@), event);
            let all = config.rules_for(event);
            &&& 0 <= k < own.len() ==> all[k] == own[k]
            &&& event == WindowRuleEvent::Manage ==> all.len() == own.len() + 2 && all[own.len() as int]
                == default_rules(config.value.floating_defaults)[0] && all[(own.len() + 1) as int]
                == default_rules(config.value.floating_defaults)[1]
            &&& event != WindowRuleEvent::Manage ==> all == own
        }),
{
    let rules = default_rules(config.value.floating_defaults);
    let one = seq![rules[0]];
    let none = Seq::<RuleView>::empty();
    let manage = WindowRuleEvent::Manage;
    rules_come_on_their_events(none, rules[0], event, event);
    rules_come_on_their_events(one, rules[1], event, event);
    assert(none.push(rules[0]) =~= one);
    assert(one.push(rules[1]) =~= rules);
    let on = seq![manage];
    assert(rules[0].on == on && rules[1].on == on);
    if event != manage {
        assert(!on.contains(event));
        assert(rules_on(rules, event) == none);
        let own = rules_on(rules_view(config.value.window_rules@), event);
        assert(own + none =~= own);
    } else {
        assert(rules_on(one, event) =~= one);
        assert(rules_on(rules, event) =~= rules);
    }
}

/// System dialogs float as floating windows do by default, and the windows of
/// the shell are ignored. The default rules are for no other windows.
pub proof fn default_rules_are_for_the_system(
    floating: FloatingState,
    properties: NativeWindowProperties,
)
    ensures
        rule_applies(default_rules(floating)[0], properties) <==> properties.class_name is Some && (
        properties.class_name->0@ == "OperationStatusWindow"@ || properties.class_name->0@
            == "#32770"@),
        default_rules(floating)[0].commands == seq![
            CommandView::SetFloating {
                centered: Some(floating.centered),
                shown_on_top: Some(floating.shown_on_top),
                x_pos: None,
                y_pos: None,
                width: None,
                height: None,
            },
        ],
        rule_applies(default_rules(floating)[1], properties) <==> properties.process_name@
            == "SearchApp"@ || properties.process_name@ == "SearchHost"@
            || properties.process_name@ == "ShellExperienceHost"@ || properties.process_name@
            == "StartMenuExperienceHost"@ || properties.process_name@ == "ScreenClippingHost"@
            || properties.process_name@ == "LockApp"@,
        default_rules(floating)[1].commands == seq![CommandView::Ignore],
        default_rules(floating).len() == 2,
{
    reveal_strlit("Zebar");
    reveal_strlit("zebar");
    reveal_strlit("SearchApp");
    reveal_strlit("SearchHost");
    reveal_strlit("ShellExperienceHost");
    reveal_strlit("StartMenuExperienceHost");
    reveal_strlit("ScreenClippingHost");
    reveal_strlit("LockApp");
    let float = default_rules(floating)[0].match_window;
    let ignore = default_rules(floating)[1].match_window;
    assert(float[0] == class_match("OperationStatusWindow"@));
    assert(float[1] == class_match("#32770"@));
    assert(ignore[0] == process_match("SearchApp"@));
    assert(ignore[1] == process_match("SearchHost"@));
    assert(ignore[2] == process_match("ShellExperienceHost"@));
    assert(ignore[3] == process_match("StartMenuExperienceHost"@));
    assert(ignore[4] == process_match("ScreenClippingHost"@));
    assert(ignore[5] == process_match("LockApp"@));
    let name = properties.process_name@;
    assert("Zebar"@.len() == 5 && "zebar"@.len() == 5);
    assert("SearchApp"@.len() == 9 && "SearchHost"@.len() == 10);
    assert("ShellExperienceHost"@.len() == 19 && "StartMenuExperienceHost"@.len() == 23);
    assert("ScreenClippingHost"@.len() == 18 && "LockApp"@.len() == 7);
    if rule_applies(default_rules(floating)[1], properties) {
        let k = choose|k: int|
            0 <= k < ignore.len() && match_holds(#[trigger] ignore[k], properties);
        assert(0 <= k < 6);
        assert(ignore[k].window_process is Some && process_matches(ignore[k].window_process, name));
        assert(ignore[k].window_process->0.len() > 5);
        assert(ignore[k].window_process == Some(name));
    }
    assert(name == "SearchApp"@ ==> match_holds(ignore[0], properties));
    assert(name == "SearchHost"@ ==> match_holds(ignore[1], properties));
    assert(name == "ShellExperienceHost"@ ==> match_holds(ignore[2], properties));
    assert(name == "StartMenuExperienceHost"@ ==> match_holds(ignore[3], properties));
    assert(name == "ScreenClippingHost"@ ==> match_holds(ignore[4], properties));
    assert(name == "LockApp"@ ==> match_holds(ignore[5], properties));
}

/// A window is what is asked for if its process, its class and its title are,
/// where they are asked for. `Zebar` may also be asked for in lower case. A
/// window without a class is not of any class that is asked for.
pub proof fn windows_match_what_is_asked_for(m: MatchView, properties: NativeWindowProperties)
    ensures
        m.window_process is None && m.window_class is None && m.window_title is None
            ==> match_holds(m, properties),
        m.window_title is Some && m.window_title->0 != properties.title@ ==> !match_holds(
            m,
            properties,
        ),
        m.window_class is Some && !(properties.class_name is Some && properties.class_name->0@
            == m.window_class->0) ==> !match_holds(m, properties),
        m.window_process is Some && m.window_process->0 != properties.process_name@ && !(
        properties.process_name@ == "Zebar"@ && m.window_process->0 == "zebar"@) ==> !match_holds(
            m,
            properties,
        ),
        (m.window_title is None || m.window_title->0 == properties.title@) && (m.window_class is None
            || (properties.class_name is Some && properties.class_name->0@ == m.window_class->0))
            && (m.window_process is None || m.window_process->0 == properties.process_name@ || (
        properties.process_name@ == "Zebar"@ && m.window_process->0 == "zebar"@)) ==> match_holds(
            m,
            properties,
        ),
{
}

/// A rule is for the windows that one of its matches asks for, and for none
/// without a match. It forces them to be managed if one of its commands does.
pub proof fn rules_are_for_what_they_match(
    rule: RuleView,
    properties: NativeWindowProperties,
    m: MatchView,
)
    ensures
        rule.match_window.len() == 0 ==> !rule_applies(rule, properties),
        rule.match_window.contains(m) && match_holds(m, properties) ==> rule_applies(
            rule,
            properties,
        ),
        rule_applies(rule, properties) ==> exists|k: int|
            0 <= k < rule.match_window.len() && match_holds(
                #[trigger] rule.match_window[k],
                properties,
            ),
        forces_management(rule) <==> rule.commands.contains(CommandView::ForceManage),
{
    if rule.match_window.contains(m) && match_holds(m, properties) {
        let k = choose|k: int| 0 <= k < rule.match_window.len() && rule.match_window[k] == m;
        assert(match_holds(rule.match_window[k], properties));
    }
}

/// A rule is pending for a window exactly if it is one of the rules, applies to
/// the window and has not been run for it.
pub proof fn pending_rules_have_not_been_run(
    rules: Seq<RuleView>,
    properties: NativeWindowProperties,
    done: Seq<RuleView>,
    rule: RuleView,
)
    ensures
        rules.filter(is_pending(properties, done)).contains(rule) <==> rules.contains(rule)
            && rule_applies(rule, properties) && !done.contains(rule),
{
    let pred = is_pending(properties, done);
    let s = rules.filter(pred);
    if s.contains(rule) {
        let k = choose|k: int| 0 <= k < s.len() && s[k] == rule;
        rules.lemma_filter_pred(pred, k);
        rules.lemma_filter_contains_rev(pred, rule);
    }
    if rules.contains(rule) && pred(rule) {
        let k = choose|k: int| 0 <= k < rules.len() && rules[k] == rule;
        rules.lemma_filter_contains(pred, k);
    }
}

/// While paused, a key is in force exactly if it ends the pause; else all are.
pub proof fn pausing_leaves_the_way_out(kb: KeybindingConfig, keys: Seq<KeybindingConfig>, k: int)
    ensures
        is_in_force(false)(kb),
        is_in_force(true)(kb) <==> commands_view(kb.commands@).contains(CommandView::WmTogglePause),
        0 <= k < keys.len() && is_in_force(true)(keys[k]) ==> keys.filter(is_in_force(true)).contains(
            keys[k],
        ),
{
    if 0 <= k < keys.len() && is_in_force(true)(keys[k]) {
        keys.lemma_filter_contains(is_in_force(true), k);
    }
}

/// The configured workspaces that are not active are listed in order, each once.
pub proof fn inactive_workspaces_are_listed(
    configured: Seq<Seq<char>>,
    active: Seq<Seq<char>>,
    i: int,
    a: int,
    b: int,
)
    ensures
        inactive_indices(configured, active).contains(i) <==> 0 <= i < configured.len()
            && !active.contains(configured[i]),
        0 <= a < b < inactive_indices(configured, active).len() ==> inactive_indices(
            configured,
            active,
        )[a] < inactive_indices(configured, active)[b],
    decreases configured.len(),
{
    if configured.len() > 0 {
        let rest = configured.drop_last();
        let ids = inactive_indices(configured, active);
        let before = inactive_indices(rest, active);
        let n = configured.len() - 1;
        inactive_workspaces_are_listed(rest, active, i, a, b);
        if 0 <= a < before.len() {
            inactive_workspaces_are_listed(rest, active, before[a], a, a);
            assert(before.contains(before[a]));
        }
        if 0 <= i < rest.len() {
            assert(rest[i] == configured[i]);
        }
        if before.contains(i) {
            let k = choose|k: int| 0 <= k < before.len() && before[k] == i;
            assert(ids[k] == i);
        }
        if ids.contains(i) {
            let k = choose|k: int| 0 <= k < ids.len() && ids[k] == i;
            if k < before.len() {
                assert(before[k] == i);
            }
        }
        if !active.contains(configured.last()) {
            assert(ids[before.len() as int] == n);
        }
    }
}

/// The first place of which something holds is found: what it holds of, with
/// nothing of the kind before it.
pub proof fn the_first_place_is_found(ids: Seq<int>, pred: spec_fn(int) -> bool, k: int)
    requires
        0 <= k < ids.len(),
        pred(ids[k]),
        forall|j: int| 0 <= j < k ==> !pred(#[trigger] ids[j]),
    ensures
        first_int(ids, pred) == Some(ids[k]),
    decreases ids.len(),
{
    if k > 0 {
        assert(!pred(ids[0]));
        let rest = ids.drop_first();
        assert forall|j: int| 0 <= j < k - 1 implies !pred(#[trigger] rest[j]) by {
            assert(rest[j] == ids[j + 1]);
        }
        the_first_place_is_found(rest, pred, k - 1);
    }
}

/// If nothing holds of any place, none is found.
pub proof fn no_place_is_found_in_vain(ids: Seq<int>, pred: spec_fn(int) -> bool)
    requires
        forall|j: int| 0 <= j < ids.len() ==> !pred(#[trigger] ids[j]),
    ensures
        first_int(ids, pred) is None,
    decreases ids.len(),
{
    if ids.len() > 0 {
        assert(!pred(ids[0]));
        let rest = ids.drop_first();
        assert forall|j: int| 0 <= j < rest.len() implies !pred(#[trigger] rest[j]) by {
            assert(rest[j] == ids[j + 1]);
        }
        no_place_is_found_in_vain(rest, pred);
    }
}

/// A workspace belongs to the monitor whose number its configuration gives, and
/// to none if it gives none.
pub proof fn workspaces_belong_to_their_monitors(configs: Seq<WorkspaceConfig>, n: usize, i: int)
    ensures
        configs[i].bind_to_monitor is None ==> is_unbound(configs)(i) && !bound_to(configs, n)(i),
        configs[i].bind_to_monitor matches Some(m) ==> !is_unbound(configs)(i) && (bound_to(
            configs,
            n,
        )(i) <==> m == n),
        config_names(configs).len() == configs.len(),
        0 <= i < configs.len() ==> config_names(configs)[i] == configs[i].name@,
{
}

/// Names that are configured come first, in their order, and every active name
/// is there too.
pub proof fn all_names_are_listed(
    configured: Seq<Seq<char>>,
    active: Seq<Seq<char>>,
    name: Seq<char>,
    k: int,
)
    ensures
        all_names(configured, active).contains(name) <==> configured.contains(name)
            || active.contains(name),
        0 <= k < configured.len() ==> all_names(configured, active)[k] == configured[k],
        configured.len() <= k < all_names(configured, active).len() ==> !configured.contains(
            all_names(configured, active)[k],
        ),
{
    let pred = is_not_configured(configured);
    let more = active.filter(pred);
    let all = all_names(configured, active);
    if configured.len() <= k < all.len() {
        active.lemma_filter_pred(pred, k - configured.len());
    }
    if all.contains(name) {
        let q = choose|q: int| 0 <= q < all.len() && all[q] == name;
        if q < configured.len() {
            assert(configured[q] == name);
        } else {
            assert(more[q - configured.len()] == name);
            active.lemma_filter_contains_rev(pred, name);
        }
    }
    if configured.contains(name) {
        let q = choose|q: int| 0 <= q < configured.len() && configured[q] == name;
        assert(all[q] == name);
    } else if active.contains(name) {
        let q = choose|q: int| 0 <= q < active.len() && active[q] == name;
        active.lemma_filter_contains(pred, q);
        let j = choose|j: int| 0 <= j < more.len() && more[j] == name;
        assert(all[configured.len() + j] == name);
    }
}

/// The number that a new workspace gets is free, and every lower one is taken.
pub proof fn new_workspaces_get_the_lowest_number(
    n: nat,
    k: nat,
    configured: Seq<Seq<char>>,
    active: Seq<Seq<char>>,
)
    requires
        is_lowest_free(n, configured, active),
    ensures
        n >= 1,
        !configured.contains(decimal(n)),
        !active.contains(decimal(n)),
        1 <= k && !configured.contains(decimal(k)) && !active.contains(decimal(k)) ==> n <= k,
{
}

/// What a list stands for is what its items stand for, one by one.
pub proof fn lists_stand_for_their_items(
    rules: Seq<WindowRuleConfig>,
    refs: Seq<&WindowRuleConfig>,
    workspaces: Seq<NamedWorkspace>,
    i: int,
)
    ensures
        rules_view(rules).len() == rules.len(),
        0 <= i < rules.len() ==> rules_view(rules)[i] == rules[i]@,
        rule_refs_view(refs).len() == refs.len(),
        0 <= i < refs.len() ==> rule_refs_view(refs)[i] == refs[i]@,
        workspace_names(workspaces).len() == workspaces.len(),
        0 <= i < workspaces.len() ==> workspace_names(workspaces)[i] == workspaces[i].name@,
{
}

} // verus!
