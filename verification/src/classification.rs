//! Window classification: pure policy evaluation deciding whether a
//! window should be managed, floated, or ignored.
//!
//! Rules name a target field (title, class, executable, or path), a
//! matching strategy, and an identifier to match. Precedence is fixed:
//! a manage override wins over an unmanage rule, and a float rule wins
//! over management unless the window is force-managed. The `Legacy`
//! strategy checks both prefix and suffix for title and class but exact
//! equality for executable and path; that asymmetry is kept deliberately
//! for compatibility with older rule files.

use vstd::prelude::*;

use crate::styles::ExtendedWindowStyle;
use crate::styles::WindowStyle;
use crate::styles::WS_CAPTION;
use crate::styles::WS_EX_DLGMODALFRAME;
use crate::styles::WS_EX_LAYERED;
use crate::styles::WS_EX_WINDOWEDGE;
use crate::text::is_prefix_of;
use crate::text::is_substring_of;
use crate::text::is_suffix_of;
use crate::text::str_contains;
use crate::text::str_ends_with;
use crate::text::str_eq;
use crate::text::str_starts_with;
use crate::window::Window;
use crate::window::WindowInfo;
use crate::WmError;

verus! {

/// Which window attribute a rule matches against.
#[derive(Debug, Clone, Copy, PartialEq, Eq, Structural)]
pub enum ApplicationIdentifier {
    /// The window title.
    Title,
    /// The window class name.
    Class,
    /// The executable name of the owning process.
    Exe,
    /// The full path of the owning process image.
    Path,
}

/// How a rule's identifier is compared with the window attribute.
#[derive(Debug, Clone, Copy, PartialEq, Eq, Structural)]
pub enum MatchingStrategy {
    /// Prefix or suffix for title and class, exact equality for
    /// executable and path.
    Legacy,
    /// Exact equality.
    Equals,
    /// Prefix match.
    StartsWith,
    /// Suffix match.
    EndsWith,
    /// Substring match.
    Contains,
    /// A regular expression, looked up in the pattern cache.
    Regex,
}

/// One classification rule.
#[derive(Debug, Clone)]
pub struct IdWithIdentifier {
    /// Which window attribute the rule matches against.
    pub kind: ApplicationIdentifier,
    /// The identifier or pattern to match.
    pub id: String,
    /// The matching strategy; a rule that reaches evaluation without one
    /// is an invalid configuration.
    pub matching_strategy: Option<MatchingStrategy>,
}

/// Whether the pattern is accepted by the regular expression engine.
pub uninterp spec fn regex_compiles(pattern: Seq<char>) -> bool;

/// Whether the compiled pattern matches somewhere in the text.
pub uninterp spec fn regex_accepts(pattern: Seq<char>, text: Seq<char>) -> bool;

/// Relies on regex::Regex::new: whether a pattern compiles depends on the
/// pattern alone.
#[verifier::external_body]
fn regex_try_compile(pattern: &str) -> (r: bool)
    ensures
        r == regex_compiles(pattern@),
{
    regex::Regex::new(pattern).is_ok()
}

/// Relies on regex::Regex::new and regex::Regex::is_match: whether the
/// pattern compiles, and where it matches, depend on the pattern and the
/// text alone; the compiled expression carries no other state.
#[verifier::external_body]
fn regex_pattern_matches(pattern: &str, text: &str) -> (r: bool)
    ensures
        r == (regex_compiles(pattern@) && regex_accepts(pattern@, text@)),
{
    match regex::Regex::new(pattern) {
        Ok(re) => re.is_match(text),
        Err(_) => false,
    }
}

/// Whether `strings` holds an entry equal to `s`.
pub open spec fn strings_contain(strings: Seq<String>, s: Seq<char>) -> bool {
    exists|i: int| 0 <= i < strings.len() && strings[i]@ == s
}

/// Membership test for a list of strings.
pub fn contains_str(strings: &Vec<String>, s: &str) -> (r: bool)
    ensures
        r == strings_contain(strings@, s@),
{
    let n = strings.len();
    let mut i: usize = 0;
    while i < n
        invariant
            n == strings@.len(),
            i <= n,
            forall|j: int| 0 <= j < i ==> strings@[j]@ != s@,
        decreases n - i,
    {
        if str_eq(strings[i].as_str(), s) {
            return true;
        }
        i = i + 1;
    }
    false
}

/// The cache of regular-expression patterns that have been validated
/// during configuration. A classification lookup for a pattern that is
/// not cached evaluates to false rather than failing.
pub struct RegexCache {
    /// The cached pattern strings, each of which compiled successfully.
    pub patterns: Vec<String>,
}

impl RegexCache {
    /// Every cached pattern compiles.
    pub open spec fn wf(&self) -> bool {
        forall|i: int| 0 <= i < self.patterns@.len() ==> regex_compiles(#[trigger] self.patterns@[i]@)
    }

    /// An empty cache.
    pub fn new() -> (r: Self)
        ensures
            r.patterns@ == Seq::<String>::empty(),
            r.wf(),
    {
        RegexCache { patterns: Vec::new() }
    }

    /// Whether `pattern` has been cached.
    pub fn contains(&self, pattern: &str) -> (r: bool)
        ensures
            r == strings_contain(self.patterns@, pattern@),
    {
        contains_str(&self.patterns, pattern)
    }

    /// Validates `pattern` and remembers it when it compiles; returns
    /// whether the pattern compiled. A pattern already cached is not
    /// duplicated.
    pub fn cache_pattern(&mut self, pattern: &String) -> (r: bool)
        requires
            old(self).wf(),
        ensures
            r == regex_compiles(pattern@),
            final(self).wf(),
            final(self).patterns@ == if regex_compiles(pattern@) && !strings_contain(
                old(self).patterns@,
                pattern@,
            ) {
                old(self).patterns@.push(*pattern)
            } else {
                old(self).patterns@
            },
    {
        let compiled = regex_try_compile(pattern.as_str());
        if compiled && !self.contains(pattern.as_str()) {
            let copy = pattern.clone();
            self.patterns.push(copy);
        }
        compiled
    }
}

/// The window attribute a rule of the given kind reads.
pub open spec fn spec_field(
    kind: ApplicationIdentifier,
    title: Seq<char>,
    exe: Seq<char>,
    class: Seq<char>,
    path: Seq<char>,
) -> Seq<char> {
    match kind {
        ApplicationIdentifier::Title => title,
        ApplicationIdentifier::Class => class,
        ApplicationIdentifier::Exe => exe,
        ApplicationIdentifier::Path => path,
    }
}

/// Whether one rule matches a window with the given attributes, under
/// the given pattern cache. A rule without a strategy matches nothing;
/// evaluating one is an invalid configuration and is excluded by the
/// callers' preconditions.
pub open spec fn spec_rule_matches(
    rule: IdWithIdentifier,
    title: Seq<char>,
    exe: Seq<char>,
    class: Seq<char>,
    path: Seq<char>,
    cache: Seq<String>,
) -> bool {
    let field = spec_field(rule.kind, title, exe, class, path);
    match rule.matching_strategy {
        None => false,
        Some(MatchingStrategy::Legacy) => match rule.kind {
            ApplicationIdentifier::Title => is_prefix_of(rule.id@, title) || is_suffix_of(
                rule.id@,
                title,
            ),
            ApplicationIdentifier::Class => is_prefix_of(rule.id@, class) || is_suffix_of(
                rule.id@,
                class,
            ),
            ApplicationIdentifier::Exe => exe == rule.id@,
            ApplicationIdentifier::Path => path == rule.id@,
        },
        Some(MatchingStrategy::Equals) => field == rule.id@,
        Some(MatchingStrategy::StartsWith) => is_prefix_of(rule.id@, field),
        Some(MatchingStrategy::EndsWith) => is_suffix_of(rule.id@, field),
        Some(MatchingStrategy::Contains) => is_substring_of(rule.id@, field),
        Some(MatchingStrategy::Regex) => strings_contain(cache, rule.id@) && regex_accepts(
            rule.id@,
            field,
        ),
    }
}

/// Whether any rule in the list matches a window with the given
/// attributes.
pub open spec fn spec_should_act(
    title: Seq<char>,
    exe: Seq<char>,
    class: Seq<char>,
    path: Seq<char>,
    rules: Seq<IdWithIdentifier>,
    cache: Seq<String>,
) -> bool {
    exists|i: int|
        0 <= i < rules.len() && spec_rule_matches(#[trigger] rules[i], title, exe, class, path, cache)
}

/// Every rule in the list carries a matching strategy.
pub open spec fn rules_have_strategies(rules: Seq<IdWithIdentifier>) -> bool {
    forall|i: int| 0 <= i < rules.len() ==> (#[trigger] rules[i]).matching_strategy is Some
}

/// Evaluates one rule against the window attributes.
fn rule_matches(
    rule: &IdWithIdentifier,
    title: &str,
    exe_name: &str,
    class: &str,
    path: &str,
    regex_identifiers: &RegexCache,
) -> (r: bool)
    requires
        rule.matching_strategy is Some,
        regex_identifiers.wf(),
    ensures
        r == spec_rule_matches(*rule, title@, exe_name@, class@, path@, regex_identifiers.patterns@),
{
    let id = rule.id.as_str();
    let strategy = match &rule.matching_strategy {
        Some(s) => *s,
        None => MatchingStrategy::Legacy,
    };
    match strategy {
        MatchingStrategy::Legacy => match rule.kind {
            ApplicationIdentifier::Title => {
                str_starts_with(title, id) || str_ends_with(title, id)
            },
            ApplicationIdentifier::Class => {
                str_starts_with(class, id) || str_ends_with(class, id)
            },
            ApplicationIdentifier::Exe => str_eq(exe_name, id),
            ApplicationIdentifier::Path => str_eq(path, id),
        },
        MatchingStrategy::Equals => match rule.kind {
            ApplicationIdentifier::Title => str_eq(title, id),
            ApplicationIdentifier::Class => str_eq(class, id),
            ApplicationIdentifier::Exe => str_eq(exe_name, id),
            ApplicationIdentifier::Path => str_eq(path, id),
        },
        MatchingStrategy::StartsWith => match rule.kind {
            ApplicationIdentifier::Title => str_starts_with(title, id),
            ApplicationIdentifier::Class => str_starts_with(class, id),
            ApplicationIdentifier::Exe => str_starts_with(exe_name, id),
            ApplicationIdentifier::Path => str_starts_with(path, id),
        },
        MatchingStrategy::EndsWith => match rule.kind {
            ApplicationIdentifier::Title => str_ends_with(title, id),
            ApplicationIdentifier::Class => str_ends_with(class, id),
            ApplicationIdentifier::Exe => str_ends_with(exe_name, id),
            ApplicationIdentifier::Path => str_ends_with(path, id),
        },
        MatchingStrategy::Contains => match rule.kind {
            ApplicationIdentifier::Title => str_contains(title, id),
            ApplicationIdentifier::Class => str_contains(class, id),
            ApplicationIdentifier::Exe => str_contains(exe_name, id),
            ApplicationIdentifier::Path => str_contains(path, id),
        },
        MatchingStrategy::Regex => {
            if regex_identifiers.contains(id) {
                let field = match rule.kind {
                    ApplicationIdentifier::Title => title,
                    ApplicationIdentifier::Class => class,
                    ApplicationIdentifier::Exe => exe_name,
                    ApplicationIdentifier::Path => path,
                };
                regex_pattern_matches(id, field)
            } else {
                false
            }
        },
    }
}

/// Whether any of the `identifiers` rules matches a window with the
/// given attributes. Rules without a matching strategy are an invalid
/// configuration and must not reach evaluation.
pub fn should_act(
    title: &str,
    exe_name: &str,
    class: &str,
    path: &str,
    identifiers: &Vec<IdWithIdentifier>,
    regex_identifiers: &RegexCache,
) -> (r: bool)
    requires
        rules_have_strategies(identifiers@),
        regex_identifiers.wf(),
    ensures
        r == spec_should_act(
            title@,
            exe_name@,
            class@,
            path@,
            identifiers@,
            regex_identifiers.patterns@,
        ),
{
    let n = identifiers.len();
    let mut acted = false;
    let mut i: usize = 0;
    while i < n
        invariant
            n == identifiers@.len(),
            i <= n,
            rules_have_strategies(identifiers@),
            regex_identifiers.wf(),
            acted == exists|j: int|
                0 <= j < i && spec_rule_matches(
                    #[trigger] identifiers@[j],
                    title@,
                    exe_name@,
                    class@,
                    path@,
                    regex_identifiers.patterns@,
                ),
        decreases n - i,
    {
        if rule_matches(&identifiers[i], title, exe_name, class, path, regex_identifiers) {
            acted = true;
        }
        i = i + 1;
    }
    acted
}

/// The process-wide classification rule lists, loaded from configuration
/// and passed into every classification call as an immutable snapshot.
pub struct ClassificationRules {
    /// Windows matching these float above the tiled layout.
    pub float_identifiers: Vec<IdWithIdentifier>,
    /// Windows matching these are always managed, overriding unmanage and
    /// float rules.
    pub manage_identifiers: Vec<IdWithIdentifier>,
    /// Windows matching these are never managed, unless force-managed.
    pub unmanage_identifiers: Vec<IdWithIdentifier>,
    /// Layered windows matching these may still be managed.
    pub layered_whitelist: Vec<IdWithIdentifier>,
    /// Executables of WSL2 GUI processes, eligible despite their styles.
    pub wsl2_ui_processes: Vec<String>,
    /// Executables whose title bars are removed, eligible despite their
    /// styles.
    pub no_titlebar: Vec<String>,
    /// Window classes that are permanently ignored.
    pub permaignore_classes: Vec<String>,
}

impl ClassificationRules {
    /// Every rule list carries matching strategies throughout.
    pub open spec fn wf(&self) -> bool {
        &&& rules_have_strategies(self.float_identifiers@)
        &&& rules_have_strategies(self.manage_identifiers@)
        &&& rules_have_strategies(self.unmanage_identifiers@)
        &&& rules_have_strategies(self.layered_whitelist@)
    }

    /// Empty rule lists: nothing floats, nothing is forced, nothing is
    /// ignored.
    pub fn new() -> (r: Self)
        ensures
            r.float_identifiers@ == Seq::<IdWithIdentifier>::empty(),
            r.manage_identifiers@ == Seq::<IdWithIdentifier>::empty(),
            r.unmanage_identifiers@ == Seq::<IdWithIdentifier>::empty(),
            r.layered_whitelist@ == Seq::<IdWithIdentifier>::empty(),
            r.wsl2_ui_processes@ == Seq::<String>::empty(),
            r.no_titlebar@ == Seq::<String>::empty(),
            r.permaignore_classes@ == Seq::<String>::empty(),
            r.wf(),
    {
        ClassificationRules {
            float_identifiers: Vec::new(),
            manage_identifiers: Vec::new(),
            unmanage_identifiers: Vec::new(),
            layered_whitelist: Vec::new(),
            wsl2_ui_processes: Vec::new(),
            no_titlebar: Vec::new(),
            permaignore_classes: Vec::new(),
        }
    }
}

/// Whether a window with the given attributes and styles is eligible for
/// management: permanently ignored classes are out; an unmanage match
/// without a manage override is out; otherwise the window must look like
/// an ordinary top-level window (or be whitelisted), or be force-managed.
pub open spec fn spec_window_is_eligible(
    title: Seq<char>,
    exe: Seq<char>,
    class: Seq<char>,
    path: Seq<char>,
    style: WindowStyle,
    ex_style: ExtendedWindowStyle,
    rules: ClassificationRules,
    cache: Seq<String>,
) -> bool {
    if strings_contain(rules.permaignore_classes@, class) {
        false
    } else {
        let should_not_manage = spec_should_act(
            title,
            exe,
            class,
            path,
            rules.unmanage_identifiers@,
            cache,
        );
        let force_window_manage = spec_should_act(
            title,
            exe,
            class,
            path,
            rules.manage_identifiers@,
            cache,
        );
        if should_not_manage && !force_window_manage {
            false
        } else {
            let allow_layered = spec_should_act(
                title,
                exe,
                class,
                path,
                rules.layered_whitelist@,
                cache,
            );
            let allow_wsl2_gui = strings_contain(rules.wsl2_ui_processes@, exe);
            let allow_titlebar_removed = strings_contain(rules.no_titlebar@, exe);
            ((allow_wsl2_gui || allow_titlebar_removed || (crate::styles::spec_has_bits(
                style.bits,
                WS_CAPTION,
            ) && crate::styles::spec_has_bits(ex_style.bits, WS_EX_WINDOWEDGE)))
                && !crate::styles::spec_has_bits(ex_style.bits, WS_EX_DLGMODALFRAME) && (
            allow_layered || !crate::styles::spec_has_bits(ex_style.bits, WS_EX_LAYERED)))
                || force_window_manage
        }
    }
}

/// Decides whether a window with the given attributes and styles should
/// be brought under management.
pub fn window_is_eligible(
    title: &String,
    exe_name: &String,
    class: &String,
    path: &String,
    style: &WindowStyle,
    ex_style: &ExtendedWindowStyle,
    rules: &ClassificationRules,
    regex_identifiers: &RegexCache,
) -> (r: bool)
    requires
        rules.wf(),
        regex_identifiers.wf(),
    ensures
        r == spec_window_is_eligible(
            title@,
            exe_name@,
            class@,
            path@,
            *style,
            *ex_style,
            *rules,
            regex_identifiers.patterns@,
        ),
{
    if contains_str(&rules.permaignore_classes, class.as_str()) {
        return false;
    }
    let should_not_manage = should_act(
        title.as_str(),
        exe_name.as_str(),
        class.as_str(),
        path.as_str(),
        &rules.unmanage_identifiers,
        regex_identifiers,
    );
    let force_window_manage = should_act(
        title.as_str(),
        exe_name.as_str(),
        class.as_str(),
        path.as_str(),
        &rules.manage_identifiers,
        regex_identifiers,
    );
    if should_not_manage && !force_window_manage {
        return false;
    }
    let allow_layered = should_act(
        title.as_str(),
        exe_name.as_str(),
        class.as_str(),
        path.as_str(),
        &rules.layered_whitelist,
        regex_identifiers,
    );
    let allow_wsl2_gui = contains_str(&rules.wsl2_ui_processes, exe_name.as_str());
    let allow_titlebar_removed = contains_str(&rules.no_titlebar, exe_name.as_str());

    (allow_wsl2_gui || allow_titlebar_removed || style.contains(WS_CAPTION) && ex_style.contains(
        WS_EX_WINDOWEDGE,
    )) && !ex_style.contains(WS_EX_DLGMODALFRAME) && (allow_layered || !ex_style.contains(
        WS_EX_LAYERED,
    )) || force_window_manage
}

/// Classification precedence: a window matching both an unmanage rule
/// and a manage (force) rule is classified as managed, as long as its
/// class is not permanently ignored.
pub proof fn lemma_manage_override_wins(
    title: Seq<char>,
    exe: Seq<char>,
    class: Seq<char>,
    path: Seq<char>,
    style: WindowStyle,
    ex_style: ExtendedWindowStyle,
    rules: ClassificationRules,
    cache: Seq<String>,
)
    requires
        spec_should_act(title, exe, class, path, rules.unmanage_identifiers@, cache),
        spec_should_act(title, exe, class, path, rules.manage_identifiers@, cache),
        !strings_contain(rules.permaignore_classes@, class),
    ensures
        spec_window_is_eligible(title, exe, class, path, style, ex_style, rules, cache),
{
}

/// The window-manager events that influence classification decisions.
#[derive(Debug, Clone, Copy, PartialEq, Eq, Structural)]
pub enum WindowManagerEvent {
    /// The display configuration changed.
    DisplayChange,
    /// A window was hidden.
    Hide,
    /// A window was cloaked.
    Cloak,
    /// The focused window changed.
    FocusChange,
    /// A forced re-evaluation was requested.
    ForceUpdate,
}

/// The OS answers gathered about one window before deciding whether to
/// manage it. Failed queries are recorded as `None` and surface as
/// errors only where the decision needs them.
#[derive(Debug, Clone)]
pub struct WindowProbe {
    /// Whether the title query succeeded.
    pub title_ok: bool,
    /// Whether the window is cloaked, or `None` when the query failed.
    pub cloaked: Option<bool>,
    /// The window attributes, when every one of the four queries
    /// succeeded.
    pub attrs: Option<WindowInfo>,
    /// The style word, or `None` when the query failed.
    pub style: Option<WindowStyle>,
    /// The extended style word, or `None` when the query failed.
    pub ex_style: Option<ExtendedWindowStyle>,
}

/// The management decision for a window, given the gathered OS answers
/// and an event. Display changes always manage; a window whose title
/// cannot be read, or which is cloaked (unless the event is a hide or a
/// cloak), is not managed; otherwise eligibility decides.
pub open spec fn spec_should_manage(
    event: Option<WindowManagerEvent>,
    probe: WindowProbe,
    rules: ClassificationRules,
    cache: Seq<String>,
) -> Result<bool, WmError> {
    if event == Some(WindowManagerEvent::DisplayChange) {
        Ok(true)
    } else if !probe.title_ok {
        Ok(false)
    } else {
        match probe.cloaked {
            None => Err(WmError::OsQueryFailed),
            Some(is_cloaked) => {
                let allow_cloaked = event == Some(WindowManagerEvent::Hide) || event == Some(
                    WindowManagerEvent::Cloak,
                );
                if allow_cloaked || !is_cloaked {
                    match probe.attrs {
                        Some(info) => match (probe.style, probe.ex_style) {
                            (Some(style), Some(ex_style)) => Ok(
                                spec_window_is_eligible(
                                    info.title@,
                                    info.exe@,
                                    info.class@,
                                    info.path@,
                                    style,
                                    ex_style,
                                    rules,
                                    cache,
                                ),
                            ),
                            _ => Err(WmError::OsQueryFailed),
                        },
                        None => Ok(false),
                    }
                } else {
                    Ok(false)
                }
            },
        }
    }
}

impl Window {
    /// Decides whether this window should be brought under management.
    pub fn should_manage(
        self,
        event: Option<WindowManagerEvent>,
        probe: &WindowProbe,
        rules: &ClassificationRules,
        regex_identifiers: &RegexCache,
    ) -> (r: Result<bool, WmError>)
        requires
            rules.wf(),
            regex_identifiers.wf(),
        ensures
            r == spec_should_manage(event, *probe, *rules, regex_identifiers.patterns@),
    {
        if let Some(WindowManagerEvent::DisplayChange) = event {
            return Ok(true);
        }
        if !probe.title_ok {
            return Ok(false);
        }
        let is_cloaked = match probe.cloaked {
            Some(c) => c,
            None => {
                return Err(WmError::OsQueryFailed);
            },
        };
        let allow_cloaked = match event {
            Some(WindowManagerEvent::Hide) | Some(WindowManagerEvent::Cloak) => true,
            _ => false,
        };
        if allow_cloaked || !is_cloaked {
            if let Some(info) = &probe.attrs {
                let style = match probe.style {
                    Some(s) => s,
                    None => {
                        return Err(WmError::OsQueryFailed);
                    },
                };
                let ex_style = match probe.ex_style {
                    Some(s) => s,
                    None => {
                        return Err(WmError::OsQueryFailed);
                    },
                };
                return Ok(
                    window_is_eligible(
                        &info.title,
                        &info.exe,
                        &info.class,
                        &info.path,
                        &style,
                        &ex_style,
                        rules,
                        regex_identifiers,
                    ),
                );
            }
            return Ok(false);
        }
        Ok(false)
    }

    /// Decides whether this window should float above the tiled layout:
    /// a float match that is not force-managed. A window whose
    /// attributes cannot all be read never floats.
    pub fn should_float(
        self,
        attrs: Option<&WindowInfo>,
        rules: &ClassificationRules,
        regex_identifiers: &RegexCache,
    ) -> (r: bool)
        requires
            rules.wf(),
            regex_identifiers.wf(),
        ensures
            r == match attrs {
                Some(info) => spec_should_act(
                    info.title@,
                    info.exe@,
                    info.class@,
                    info.path@,
                    rules.float_identifiers@,
                    regex_identifiers.patterns@,
                ) && !spec_should_act(
                    info.title@,
                    info.exe@,
                    info.class@,
                    info.path@,
                    rules.manage_identifiers@,
                    regex_identifiers.patterns@,
                ),
                None => false,
            },
    {
        if let Some(info) = attrs {
            let floats = should_act(
                info.title.as_str(),
                info.exe.as_str(),
                info.class.as_str(),
                info.path.as_str(),
                &rules.float_identifiers,
                regex_identifiers,
            );
            let is_forced = should_act(
                info.title.as_str(),
                info.exe.as_str(),
                info.class.as_str(),
                info.path.as_str(),
                &rules.manage_identifiers,
                regex_identifiers,
            );
            floats && !is_forced
        } else {
            false
        }
    }
}

/// Per-application behaviour switches carried by an application
/// configuration entry.
#[derive(Debug, Clone, Copy, PartialEq, Eq, Structural)]
pub enum ApplicationOptions {
    /// Wait for an object-name-change event before managing.
    ObjectNameChangeOnLaunch,
    /// Treat the application as a tray or multi-window application.
    TrayAndMultiWindow,
    /// Always manage windows of this application.
    Force,
    /// Let the window border overflow the computed rectangle.
    BorderOverflow,
}

/// A rule bound to one application, with a mandatory matching strategy.
#[derive(Debug)]
pub struct AppIdentifier {
    /// The identifier or pattern to match.
    pub id: String,
    /// Which window attribute the rule matches against.
    pub kind: ApplicationIdentifier,
    /// The matching strategy.
    pub matching_strategy: MatchingStrategy,
}

impl Clone for AppIdentifier {
    /// An exact copy.
    fn clone(&self) -> (r: Self)
        ensures
            r == *self,
    {
        AppIdentifier {
            id: self.id.clone(),
            kind: self.kind,
            matching_strategy: self.matching_strategy,
        }
    }
}

impl From<IdWithIdentifier> for AppIdentifier {
    /// A rule without a strategy falls back to `Legacy` matching.
    fn from(value: IdWithIdentifier) -> (r: Self) {
        AppIdentifier {
            id: value.id,
            kind: value.kind,
            matching_strategy: match value.matching_strategy {
                Some(strategy) => strategy,
                None => MatchingStrategy::Legacy,
            },
        }
    }
}

impl vstd::std_specs::convert::FromSpecImpl<IdWithIdentifier> for AppIdentifier {
    open spec fn obeys_from_spec() -> bool {
        true
    }

    open spec fn from_spec(value: IdWithIdentifier) -> Self {
        AppIdentifier {
            id: value.id,
            kind: value.kind,
            matching_strategy: match value.matching_strategy {
                Some(strategy) => strategy,
                None => MatchingStrategy::Legacy,
            },
        }
    }
}

/// Whether an application rule matches the given window attributes.
pub open spec fn spec_validate(
    identifier: AppIdentifier,
    title: Seq<char>,
    class: Seq<char>,
    exe: Seq<char>,
    path: Seq<char>,
    cache: Seq<String>,
) -> bool {
    spec_rule_matches(
        IdWithIdentifier {
            kind: identifier.kind,
            id: identifier.id,
            matching_strategy: Some(identifier.matching_strategy),
        },
        title,
        exe,
        class,
        path,
        cache,
    )
}

impl AppIdentifier {
    /// The identifier or pattern to match.
    pub fn id(&self) -> (r: &String)
        ensures
            r == &self.id,
    {
        &self.id
    }

    /// Which window attribute the rule matches against.
    pub fn kind(&self) -> (r: &ApplicationIdentifier)
        ensures
            r == &self.kind,
    {
        &self.kind
    }

    /// The matching strategy.
    pub fn matching_strategy(&self) -> (r: &MatchingStrategy)
        ensures
            r == &self.matching_strategy,
    {
        &self.matching_strategy
    }

    /// Compiles and caches the rule's pattern when its strategy is a
    /// regular expression; a pattern that fails to compile is simply not
    /// cached.
    pub fn cache_regex(&self, regex_identifiers: &mut RegexCache)
        requires
            old(regex_identifiers).wf(),
        ensures
            final(regex_identifiers).wf(),
            final(regex_identifiers).patterns@ == if self.matching_strategy
                == MatchingStrategy::Regex && regex_compiles(self.id@) && !strings_contain(
                old(regex_identifiers).patterns@,
                self.id@,
            ) {
                old(regex_identifiers).patterns@.push(self.id)
            } else {
                old(regex_identifiers).patterns@
            },
    {
        if let MatchingStrategy::Regex = self.matching_strategy {
            let _compiled = regex_identifiers.cache_pattern(&self.id);
        }
    }

    /// Evaluates the rule against the given window attributes.
    pub fn validate(
        &self,
        title: &str,
        class: &str,
        exe: &str,
        path: &str,
        regex_identifiers: &RegexCache,
    ) -> (r: bool)
        requires
            regex_identifiers.wf(),
        ensures
            r == spec_validate(*self, title@, class@, exe@, path@, regex_identifiers.patterns@),
    {
        let rule = IdWithIdentifier {
            kind: self.kind,
            id: self.id.clone(),
            matching_strategy: Some(self.matching_strategy),
        };
        rule_matches(&rule, title, exe, class, path, regex_identifiers)
    }
}

/// The configuration entry for one application.
#[derive(Debug)]
pub struct AppConfig {
    /// The application's display name.
    pub name: String,
    /// The application's category, used for category stacking.
    pub category: Option<String>,
    /// The monitor this application is bound to, if any.
    pub binded_monitor_idx: Option<usize>,
    /// The workspace this application is bound to, if any.
    pub binded_workspace_name: Option<String>,
    /// The rule identifying the application's windows.
    pub identifier: AppIdentifier,
    /// Per-application behaviour switches.
    pub options: Vec<ApplicationOptions>,
    /// Invisible border insets specific to this application, if any.
    pub invisible_borders: Option<crate::rect::Rect>,
}

/// Copies an optional string.
fn clone_opt_string(s: &Option<String>) -> (r: Option<String>)
    ensures
        r == *s,
{
    match s {
        Some(inner) => Some(inner.clone()),
        None => None,
    }
}

impl Clone for AppConfig {
    /// A copy equal to the original in every field; the options list is
    /// copied element for element.
    fn clone(&self) -> (r: Self)
        ensures
            r.name == self.name,
            r.category == self.category,
            r.binded_monitor_idx == self.binded_monitor_idx,
            r.binded_workspace_name == self.binded_workspace_name,
            r.identifier == self.identifier,
            r.options@ == self.options@,
            r.invisible_borders == self.invisible_borders,
    {
        let mut options: Vec<ApplicationOptions> = Vec::new();
        let n = self.options.len();
        let mut i: usize = 0;
        while i < n
            invariant
                n == self.options@.len(),
                i <= n,
                options@ == self.options@.take(i as int),
            decreases n - i,
        {
            options.push(self.options[i]);
            proof {
                assert(options@ =~= self.options@.take(i + 1));
            }
            i = i + 1;
        }
        proof {
            assert(self.options@.take(n as int) =~= self.options@);
        }
        AppConfig {
            name: self.name.clone(),
            category: clone_opt_string(&self.category),
            binded_monitor_idx: self.binded_monitor_idx,
            binded_workspace_name: clone_opt_string(&self.binded_workspace_name),
            identifier: self.identifier.clone(),
            options,
            invisible_borders: self.invisible_borders,
        }
    }
}

impl AppConfig {
    /// The application's category, used for category stacking.
    pub fn category(&self) -> (r: &Option<String>)
        ensures
            r == &self.category,
    {
        &self.category
    }

    /// The rule identifying the application's windows.
    pub fn identifier(&self) -> (r: &AppIdentifier)
        ensures
            r == &self.identifier,
    {
        &self.identifier
    }

    /// Whether this entry's rule matches a window with the given
    /// attributes.
    pub fn match_window(&self, info: &WindowInfo, regex_identifiers: &RegexCache) -> (r: bool)
        requires
            regex_identifiers.wf(),
        ensures
            r == spec_validate(
                self.identifier,
                info.title@,
                info.class@,
                info.exe@,
                info.path@,
                regex_identifiers.patterns@,
            ),
    {
        self.identifier.validate(
            info.title.as_str(),
            info.class.as_str(),
            info.exe.as_str(),
            info.path.as_str(),
            regex_identifiers,
        )
    }
}

/// Whether an application entry matches the given window attributes.
pub open spec fn spec_app_match(app: AppConfig, info: WindowInfo, cache: Seq<String>) -> bool {
    spec_validate(app.identifier, info.title@, info.class@, info.exe@, info.path@, cache)
}

/// The index of the first application entry at or after `i` that matches
/// the window attributes.
pub open spec fn spec_first_match(
    apps: Seq<AppConfig>,
    info: WindowInfo,
    cache: Seq<String>,
    i: int,
) -> Option<int>
    decreases apps.len() - i,
{
    if i < 0 || i >= apps.len() {
        None
    } else if spec_app_match(apps[i], info, cache) {
        Some(i)
    } else {
        spec_first_match(apps, info, cache, i + 1)
    }
}

/// The entry a lookup returns: a memoized index when the handle was seen
/// before (a stale index yields nothing), otherwise the first matching
/// entry.
pub open spec fn spec_lookup(
    apps: Seq<AppConfig>,
    memo: Map<isize, Option<usize>>,
    hwnd: isize,
    info: WindowInfo,
    cache: Seq<String>,
) -> Option<AppConfig> {
    if memo.contains_key(hwnd) {
        match memo[hwnd] {
            Some(i) => if i < apps.len() {
                Some(apps[i as int])
            } else {
                None
            },
            None => None,
        }
    } else {
        match spec_first_match(apps, info, cache, 0) {
            Some(i) => Some(apps[i]),
            None => None,
        }
    }
}

/// The configured applications, in priority order, with a lookup memo
/// keyed by window handle. The memo is cleared whenever an entry is
/// added.
pub struct AppsConfigurations {
    /// The application entries, most recently added first.
    pub apps: Vec<AppConfig>,
    /// Memoized lookups: the matching entry index found for a handle, or
    /// `None` when no entry matched.
    pub cache: std::collections::HashMap<isize, Option<usize>>,
}

impl AppsConfigurations {
    /// An empty configuration with an empty memo.
    pub fn new() -> (r: Self)
        ensures
            r.apps@ == Seq::<AppConfig>::empty(),
            r.cache@ == Map::<isize, Option<usize>>::empty(),
    {
        AppsConfigurations { apps: Vec::new(), cache: std::collections::HashMap::new() }
    }

    /// Adds an entry at the highest priority, caches its pattern when it
    /// is a regular expression, and clears the memo.
    pub fn add(&mut self, app: AppConfig, regex_identifiers: &mut RegexCache)
        requires
            old(regex_identifiers).wf(),
        ensures
            final(regex_identifiers).wf(),
            final(regex_identifiers).patterns@ == if app.identifier.matching_strategy
                == MatchingStrategy::Regex && regex_compiles(app.identifier.id@)
                && !strings_contain(old(regex_identifiers).patterns@, app.identifier.id@) {
                old(regex_identifiers).patterns@.push(app.identifier.id)
            } else {
                old(regex_identifiers).patterns@
            },
            final(self).apps@ == old(self).apps@.insert(0, app),
            final(self).cache@ == Map::<isize, Option<usize>>::empty(),
    {
        app.identifier.cache_regex(regex_identifiers);
        self.apps.insert(0, app);
        self.cache = std::collections::HashMap::new();
    }

    /// Looks up the entry for a window, memoizing the answer by handle.
    pub fn get_by_window(
        &mut self,
        window: &Window,
        info: &WindowInfo,
        regex_identifiers: &RegexCache,
    ) -> (r: Option<&AppConfig>)
        requires
            regex_identifiers.wf(),
        ensures
            final(self).apps@ == old(self).apps@,
            match r {
                Some(app) => Some(*app) == spec_lookup(
                    old(self).apps@,
                    old(self).cache@,
                    window.hwnd,
                    *info,
                    regex_identifiers.patterns@,
                ),
                None => spec_lookup(
                    old(self).apps@,
                    old(self).cache@,
                    window.hwnd,
                    *info,
                    regex_identifiers.patterns@,
                ) is None,
            },
            final(self).cache@ == if old(self).cache@.contains_key(window.hwnd) {
                old(self).cache@
            } else {
                old(self).cache@.insert(
                    window.hwnd,
                    match spec_first_match(
                        old(self).apps@,
                        *info,
                        regex_identifiers.patterns@,
                        0,
                    ) {
                        Some(i) => Some(i as usize),
                        None => None,
                    },
                )
            },
    {
        let hwnd = window.hwnd;
        if let Some(cached) = self.cache.get(&hwnd) {
            return match cached {
                Some(i) => {
                    let idx = *i;
                    if idx < self.apps.len() {
                        Some(&self.apps[idx])
                    } else {
                        None
                    }
                },
                None => None,
            };
        }
        let n = self.apps.len();
        let mut i: usize = 0;
        while i < n
            invariant
                n == self.apps@.len(),
                i <= n,
                regex_identifiers.wf(),
                self == old(self),
                hwnd == window.hwnd,
                !old(self).cache@.contains_key(hwnd),
                spec_first_match(self.apps@, *info, regex_identifiers.patterns@, 0)
                    == spec_first_match(self.apps@, *info, regex_identifiers.patterns@, i as int),
            decreases n - i,
        {
            if self.apps[i].match_window(info, regex_identifiers) {
                proof {
                    assert(spec_first_match(self.apps@, *info, regex_identifiers.patterns@, i as int)
                        == Some(i as int));
                }
                self.cache.insert(hwnd, Some(i));
                return Some(&self.apps[i]);
            }
            i = i + 1;
        }
        self.cache.insert(hwnd, None);
        None
    }
}

impl Window {
    /// The category configured for this window's application, if any.
    pub fn category(
        self,
        apps: &mut AppsConfigurations,
        info: &WindowInfo,
        regex_identifiers: &RegexCache,
    ) -> (r: Option<String>)
        requires
            regex_identifiers.wf(),
        ensures
            final(apps).apps@ == old(apps).apps@,
            r == match spec_lookup(
                old(apps).apps@,
                old(apps).cache@,
                self.hwnd,
                *info,
                regex_identifiers.patterns@,
            ) {
                Some(app) => app.category,
                None => None::<String>,
            },
    {
        match apps.get_by_window(&self, info, regex_identifiers) {
            Some(config) => clone_opt_string(&config.category),
            None => None,
        }
    }

    /// The configuration entry for this window's application, if any.
    pub fn config(
        self,
        apps: &mut AppsConfigurations,
        info: &WindowInfo,
        regex_identifiers: &RegexCache,
    ) -> (r: Option<AppConfig>)
        requires
            regex_identifiers.wf(),
        ensures
            final(apps).apps@ == old(apps).apps@,
            match r {
                Some(config) => {
                    &&& spec_lookup(
                        old(apps).apps@,
                        old(apps).cache@,
                        self.hwnd,
                        *info,
                        regex_identifiers.patterns@,
                    ) matches Some(found) && config.name == found.name
                        && config.category == found.category && config.identifier
                        == found.identifier && config.options@ == found.options@
                        && config.invisible_borders == found.invisible_borders
                },
                None => spec_lookup(
                    old(apps).apps@,
                    old(apps).cache@,
                    self.hwnd,
                    *info,
                    regex_identifiers.patterns@,
                ) is None,
            },
    {
        match apps.get_by_window(&self, info, regex_identifiers) {
            Some(config) => Some(config.clone()),
            None => None,
        }
    }
}

} // verus!
