use komorebi::classification::AppConfig;
use komorebi::classification::AppIdentifier;
use komorebi::classification::ApplicationIdentifier;
use komorebi::classification::AppsConfigurations;
use komorebi::classification::ClassificationRules;
use komorebi::classification::IdWithIdentifier;
use komorebi::classification::MatchingStrategy;
use komorebi::classification::RegexCache;
use komorebi::classification::should_act;
use komorebi::classification::window_is_eligible;
use komorebi::styles::ExtendedWindowStyle;
use komorebi::styles::WindowStyle;
use komorebi::styles::WS_CAPTION;
use komorebi::styles::WS_EX_LAYERED;
use komorebi::styles::WS_EX_WINDOWEDGE;
use komorebi::window::Window;
use komorebi::window::WindowInfo;

fn rule(kind: ApplicationIdentifier, id: &str, strategy: MatchingStrategy) -> IdWithIdentifier {
    IdWithIdentifier { kind, id: String::from(id), matching_strategy: Some(strategy) }
}

fn plain_styles() -> (WindowStyle, ExtendedWindowStyle) {
    (
        WindowStyle { bits: WS_CAPTION },
        ExtendedWindowStyle { bits: WS_EX_WINDOWEDGE },
    )
}

fn info(title: &str, exe: &str, class: &str, path: &str) -> WindowInfo {
    WindowInfo {
        title: String::from(title),
        exe: String::from(exe),
        class: String::from(class),
        path: String::from(path),
    }
}

#[test]
fn should_act_matches_each_strategy() {
    let cache = RegexCache::new();
    let cases = vec![
        (rule(ApplicationIdentifier::Title, "Steam", MatchingStrategy::Equals), "Steam", true),
        (rule(ApplicationIdentifier::Title, "Ste", MatchingStrategy::StartsWith), "Steam", true),
        (rule(ApplicationIdentifier::Title, "eam", MatchingStrategy::EndsWith), "Steam", true),
        (rule(ApplicationIdentifier::Title, "tea", MatchingStrategy::Contains), "Steam", true),
        (rule(ApplicationIdentifier::Title, "team", MatchingStrategy::StartsWith), "Steam", false),
    ];
    for (r, title, expected) in cases {
        let got = should_act(title, "x.exe", "SomeClass", "C:/x.exe", &vec![r], &cache);
        assert_eq!(got, expected);
    }
}

#[test]
fn legacy_strategy_is_prefix_or_suffix_for_title_but_exact_for_exe() {
    let cache = RegexCache::new();
    let title_rule = vec![rule(ApplicationIdentifier::Title, "Mozilla", MatchingStrategy::Legacy)];
    assert!(should_act("Mozilla Firefox", "f.exe", "c", "p", &title_rule, &cache));
    let suffix_rule = vec![rule(ApplicationIdentifier::Title, "Firefox", MatchingStrategy::Legacy)];
    assert!(should_act("Mozilla Firefox", "f.exe", "c", "p", &suffix_rule, &cache));
    let exe_rule = vec![rule(ApplicationIdentifier::Exe, "fire", MatchingStrategy::Legacy)];
    assert!(!should_act("t", "firefox.exe", "c", "p", &exe_rule, &cache));
    let exe_exact = vec![rule(ApplicationIdentifier::Exe, "firefox.exe", MatchingStrategy::Legacy)];
    assert!(should_act("t", "firefox.exe", "c", "p", &exe_exact, &cache));
}

#[test]
fn regex_rules_apply_only_when_cached() {
    let mut cache = RegexCache::new();
    let r = vec![rule(ApplicationIdentifier::Class, "^Chrome_.*$", MatchingStrategy::Regex)];
    // Not cached yet: evaluates to false rather than failing.
    assert!(!should_act("t", "e", "Chrome_WidgetWin_1", "p", &r, &cache));
    assert!(cache.cache_pattern(&String::from("^Chrome_.*$")));
    assert!(should_act("t", "e", "Chrome_WidgetWin_1", "p", &r, &cache));
    assert!(!should_act("t", "e", "Mozilla_WidgetWin_1", "p", &r, &cache));
}

#[test]
fn invalid_regex_is_not_cached() {
    let mut cache = RegexCache::new();
    assert!(!cache.cache_pattern(&String::from("([unclosed")));
    assert!(!cache.contains("([unclosed"));
}

#[test]
fn manage_override_beats_unmanage() {
    let cache = RegexCache::new();
    let mut rules = ClassificationRules::new();
    rules.unmanage_identifiers.push(rule(
        ApplicationIdentifier::Exe,
        "steam.exe",
        MatchingStrategy::Equals,
    ));
    rules.manage_identifiers.push(rule(
        ApplicationIdentifier::Exe,
        "steam.exe",
        MatchingStrategy::Equals,
    ));
    let (style, ex_style) = plain_styles();
    let eligible = window_is_eligible(
        &String::from("Steam"),
        &String::from("steam.exe"),
        &String::from("vguiPopupWindow"),
        &String::from("C:/steam.exe"),
        &style,
        &ex_style,
        &rules,
        &cache,
    );
    assert!(eligible);
}

#[test]
fn unmanage_without_override_wins() {
    let cache = RegexCache::new();
    let mut rules = ClassificationRules::new();
    rules.unmanage_identifiers.push(rule(
        ApplicationIdentifier::Exe,
        "steam.exe",
        MatchingStrategy::Equals,
    ));
    let (style, ex_style) = plain_styles();
    let eligible = window_is_eligible(
        &String::from("Steam"),
        &String::from("steam.exe"),
        &String::from("vguiPopupWindow"),
        &String::from("C:/steam.exe"),
        &style,
        &ex_style,
        &rules,
        &cache,
    );
    assert!(!eligible);
}

#[test]
fn permaignored_class_is_never_eligible() {
    let cache = RegexCache::new();
    let mut rules = ClassificationRules::new();
    rules.permaignore_classes.push(String::from("SysShadow"));
    rules.manage_identifiers.push(rule(
        ApplicationIdentifier::Class,
        "SysShadow",
        MatchingStrategy::Equals,
    ));
    let (style, ex_style) = plain_styles();
    let eligible = window_is_eligible(
        &String::from("t"),
        &String::from("e.exe"),
        &String::from("SysShadow"),
        &String::from("p"),
        &style,
        &ex_style,
        &rules,
        &cache,
    );
    assert!(!eligible);
}

#[test]
fn layered_windows_need_whitelisting() {
    let cache = RegexCache::new();
    let rules = ClassificationRules::new();
    let style = WindowStyle { bits: WS_CAPTION };
    let layered = ExtendedWindowStyle { bits: WS_EX_WINDOWEDGE | WS_EX_LAYERED };
    let eligible = window_is_eligible(
        &String::from("t"),
        &String::from("steam.exe"),
        &String::from("c"),
        &String::from("p"),
        &style,
        &layered,
        &rules,
        &cache,
    );
    assert!(!eligible);
    let mut whitelisting = ClassificationRules::new();
    whitelisting.layered_whitelist.push(rule(
        ApplicationIdentifier::Exe,
        "steam.exe",
        MatchingStrategy::Equals,
    ));
    let eligible_now = window_is_eligible(
        &String::from("t"),
        &String::from("steam.exe"),
        &String::from("c"),
        &String::from("p"),
        &style,
        &layered,
        &whitelisting,
        &cache,
    );
    assert!(eligible_now);
}

#[test]
fn should_float_unless_force_managed() {
    let cache = RegexCache::new();
    let mut rules = ClassificationRules::new();
    rules.float_identifiers.push(rule(
        ApplicationIdentifier::Class,
        "TaskManagerWindow",
        MatchingStrategy::Equals,
    ));
    let w = Window { hwnd: 7 };
    let i = info("Task Manager", "taskmgr.exe", "TaskManagerWindow", "C:/taskmgr.exe");
    assert!(w.should_float(Some(&i), &rules, &cache));
    rules.manage_identifiers.push(rule(
        ApplicationIdentifier::Exe,
        "taskmgr.exe",
        MatchingStrategy::Equals,
    ));
    assert!(!w.should_float(Some(&i), &rules, &cache));
    assert!(!w.should_float(None, &rules, &cache));
}

#[test]
fn apps_configurations_find_first_match_and_memoize() {
    let mut apps = AppsConfigurations::new();
    let mut cache = RegexCache::new();
    let config = AppConfig {
        name: String::from("Terminal"),
        category: Some(String::from("terminal")),
        binded_monitor_idx: None,
        binded_workspace_name: None,
        identifier: AppIdentifier {
            id: String::from("wezterm.exe"),
            kind: ApplicationIdentifier::Exe,
            matching_strategy: MatchingStrategy::Equals,
        },
        options: Vec::new(),
        invisible_borders: None,
    };
    apps.add(config, &mut cache);
    let w = Window { hwnd: 11 };
    let i = info("wezterm", "wezterm.exe", "org.wezfurlong.wezterm", "C:/wezterm.exe");
    let found = apps.get_by_window(&w, &i, &cache);
    assert!(found.is_some());
    assert_eq!(found.unwrap().name, "Terminal");
    assert_eq!(w.category(&mut apps, &i, &cache), Some(String::from("terminal")));
    // A different window with non-matching attributes finds nothing, and
    // the memo remembers that.
    let other = Window { hwnd: 12 };
    let j = info("emacs", "emacs.exe", "Emacs", "C:/emacs.exe");
    assert!(apps.get_by_window(&other, &j, &cache).is_none());
    assert!(apps.get_by_window(&other, &j, &cache).is_none());
}

#[test]
fn app_identifier_from_rule_defaults_to_legacy() {
    let r = IdWithIdentifier {
        kind: ApplicationIdentifier::Title,
        id: String::from("x"),
        matching_strategy: None,
    };
    let ai = AppIdentifier::from(r);
    assert_eq!(*ai.matching_strategy(), MatchingStrategy::Legacy);
}

#[test]
fn validate_matches_path_field() {
    let cache = RegexCache::new();
    let ai = AppIdentifier {
        id: String::from("C:/tools/app.exe"),
        kind: ApplicationIdentifier::Path,
        matching_strategy: MatchingStrategy::Equals,
    };
    assert!(ai.validate("t", "c", "app.exe", "C:/tools/app.exe", &cache));
    assert!(!ai.validate("t", "c", "app.exe", "D:/other.exe", &cache));
}
