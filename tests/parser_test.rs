use browscap_rs::{
    create_agent_parser, create_rule, FileParser, LiteralPool, ParseError, UserAgentParser, BROWSER,
    BROWSER_TYPE, IS_TABLET, PLATFORM,
};
use browscap_rs::text::normalize_pattern;

fn row(pattern: &str, browser: &str, major: &str, platform: &str, device: &str) -> Vec<String> {
    let mut cells: Vec<String> = vec![String::new(); 51];
    cells[0] = pattern.to_string();
    cells[5] = browser.to_string();
    cells[6] = "Browser".to_string();
    cells[11] = major.to_string();
    cells[13] = platform.to_string();
    cells[14] = "1.0".to_string();
    cells[43] = device.to_string();
    cells
}

fn parser_of(rows: Vec<Vec<String>>) -> UserAgentParser {
    let mut builder = FileParser::new(Vec::new());
    builder.parse(&rows);
    create_agent_parser(builder)
}

#[test]
fn empty_input_gives_all_unknown() {
    let parser = parser_of(vec![row("*chrome*", "Chrome", "120", "Win10", "Desktop")]);
    let c = parser.parse("");
    assert_eq!(c.get_browser(), Some("Unknown"));
    assert_eq!(c.get_browser_type(), Some("Unknown"));
    assert_eq!(c.get_browser_major_version(), Some("Unknown"));
    assert_eq!(c.get_platform(), Some("Unknown"));
    assert_eq!(c.get_platform_version(), Some("Unknown"));
    assert_eq!(c.get_device_type(), Some("Unknown"));
}

#[test]
fn unmatched_input_gets_the_catch_all() {
    let parser = parser_of(vec![row("mozilla/5.0*chrome/*", "Chrome", "120", "Win10", "Desktop")]);
    let c = parser.parse("random-string-that-matches-nothing/1.0");
    assert_eq!(c.get_browser(), Some("Default Browser"));
    assert_eq!(c.get_browser_type(), Some("Default Browser"));
    assert_eq!(c.get_browser_major_version(), Some("Unknown"));
    assert_eq!(c.get_platform(), Some("Unknown"));
    assert_eq!(c.get_platform_version(), Some("Unknown"));
    assert_eq!(c.get_device_type(), Some("Unknown"));
}

#[test]
fn longer_pattern_wins() {
    let parser = parser_of(vec![
        row("a*b", "Short", "1", "P", "D"),
        row("a*bb", "Long", "2", "P", "D"),
    ]);
    assert_eq!(parser.parse("axbb").get_browser(), Some("Long"));
    assert_eq!(parser.parse("axb").get_browser(), Some("Short"));
}

#[test]
fn plain_pattern_matches_only_itself() {
    let parser = parser_of(vec![row("ExactAgent/1.0", "Exact", "1", "P", "D")]);
    assert_eq!(parser.parse("ExactAgent/1.0").get_browser(), Some("Exact"));
    assert_eq!(parser.parse("exactagent/1.0").get_browser(), Some("Exact"));
    assert_eq!(parser.parse("ExactAgent/1.01").get_browser(), Some("Default Browser"));
    assert_eq!(parser.parse("xExactAgent/1.0").get_browser(), Some("Default Browser"));
}

#[test]
fn question_mark_in_pattern() {
    let parser = parser_of(vec![row("a?c", "Q", "1", "P", "D")]);
    assert_eq!(parser.parse("abc").get_browser(), Some("Q"));
    assert_eq!(parser.parse("a-c").get_browser(), Some("Q"));
    assert_eq!(parser.parse("ac").get_browser(), Some("Default Browser"));
    assert_eq!(parser.parse("abbc").get_browser(), Some("Default Browser"));
}

#[test]
fn parse_ignores_ascii_case() {
    let parser = parser_of(vec![row("Mozilla/5.0 (*Windows NT 10.0*)*Chrome/*", "Chrome", "120", "Win10", "Desktop")]);
    let ua = "Mozilla/5.0 (Windows NT 10.0; Win64; x64) AppleWebKit/537.36 (KHTML, like Gecko) Chrome/120.0.0.0 Safari/537.36";
    let a = parser.parse(ua);
    let b = parser.parse(&ua.to_ascii_lowercase());
    assert_eq!(a.get_browser(), Some("Chrome"));
    assert_eq!(b.get_browser(), Some("Chrome"));
    assert_eq!(a.get_platform(), Some("Win10"));
    assert_eq!(a.get_device_type(), Some("Desktop"));
    assert!(std::ptr::eq(a, b));
}

#[test]
fn floating_literals_are_found_in_order() {
    let parser = parser_of(vec![row("*iphone*safari*", "Safari", "10", "iOS", "Mobile Phone")]);
    let hit = parser.parse("Mozilla/5.0 (iPhone; CPU iPhone OS 10_2_1 like Mac OS X) AppleWebKit/602.4.6 (KHTML, like Gecko) Version/10.0 Mobile/14D27 Safari/602.1");
    assert_eq!(hit.get_browser(), Some("Safari"));
    assert_eq!(hit.get_browser_major_version(), Some("10"));
    assert_eq!(hit.get_platform(), Some("iOS"));
    assert_eq!(hit.get_device_type(), Some("Mobile Phone"));
    assert_eq!(parser.parse("safari then iphone").get_browser(), Some("Default Browser"));
}

#[test]
fn blank_cells_become_unknown_and_cells_are_trimmed() {
    let mut r = row("agent/*", "  Firefox  ", "", "Linux", "   ");
    r[11] = "  ".to_string();
    let parser = parser_of(vec![r]);
    let c = parser.parse("agent/9");
    assert_eq!(c.get_browser(), Some("Firefox"));
    assert_eq!(c.get_browser_major_version(), Some("Unknown"));
    assert_eq!(c.get_platform(), Some("Linux"));
    assert_eq!(c.get_device_type(), Some("Unknown"));
}

#[test]
fn fields_outside_the_projection_are_absent() {
    let parser = parser_of(vec![row("x*", "X", "1", "P", "D")]);
    assert_eq!(parser.parse("xyz").get_value(&IS_TABLET), None);
    let mut builder = FileParser::new(vec![IS_TABLET]);
    let mut r = row("x*", "X", "1", "P", "D");
    r[33] = "true".to_string();
    builder.parse(&vec![r]);
    let parser = create_agent_parser(builder);
    assert_eq!(parser.parse("xyz").get_value(&IS_TABLET), Some("true"));
    assert_eq!(parser.parse("xyz").get_value(&BROWSER), Some("X"));
}

#[test]
fn rows_that_yield_no_rule() {
    let mut builder = FileParser::new(Vec::new());
    let short: Vec<String> = vec!["abc".to_string(); 47];
    assert!(matches!(builder.get_rule(&short), Err(ParseError::InvalidRecord)));
    assert!(matches!(builder.get_rule(&row("", "B", "1", "P", "D")), Err(ParseError::EmptyPattern)));
    assert!(matches!(builder.get_rule(&row("*", "B", "1", "P", "D")), Err(ParseError::FixedPattern)));
    assert!(matches!(builder.get_rule(&row("***", "B", "1", "P", "D")), Err(ParseError::FixedPattern)));
    assert!(builder.get_rule(&row("a*", "B", "1", "P", "D")).is_ok());
    assert_eq!(ParseError::EmptyPattern.message(), "empty pattern");
}

#[test]
fn stars_collapse_and_case_folds() {
    assert_eq!(normalize_pattern("AB**cd"), "ab*cd");
    assert_eq!(normalize_pattern("ab*cd"), "ab*cd");
    assert_eq!(normalize_pattern("***x****Y*"), "*x*y*");
    assert_eq!(normalize_pattern("Ünïcode"), "Ünïcode");
}

#[test]
fn decomposition_reads_back() {
    let mut pool = LiteralPool::new();
    let r = create_rule(&mut pool, "*a*b*c", 0).unwrap();
    assert_eq!(r.get_pattern(), "*a*b*c");
    assert!(r.get_prefix().is_none());
    assert_eq!(r.get_size(), 6);
    let r = create_rule(&mut pool, "mozilla/5.0 (*) gecko*", 0).unwrap();
    assert_eq!(r.get_pattern(), "mozilla/5.0 (*) gecko*");
    let r = create_rule(&mut pool, "plain", 0).unwrap();
    assert_eq!(r.get_pattern(), "plain");
    let r = create_rule(&mut pool, "a*b", 0).unwrap();
    assert_eq!(r.get_pattern(), "ab");
    assert!(matches!(create_rule(&mut pool, "", 0), Err(ParseError::EmptyPattern)));
    assert!(matches!(create_rule(&mut pool, "*", 0), Err(ParseError::FixedPattern)));
}

#[test]
fn rule_requires_its_literals() {
    let mut pool = LiteralPool::new();
    let r = create_rule(&mut pool, "mozilla/*chrome*safari", 0).unwrap();
    assert!(r.requires_substring("chrome"));
    assert!(r.requires_substring("moz"));
    assert!(r.requires_substring("fari"));
    assert!(!r.requires_substring("firefox"));
}

#[test]
fn equal_records_are_shared() {
    let parser = parser_of(vec![
        row("one*", "Same", "1", "P", "D"),
        row("two*", "Same", "1", "P", "D"),
        row("three*", "Other", "1", "P", "D"),
    ]);
    let a = parser.parse("one1");
    let b = parser.parse("two2");
    let c = parser.parse("three3");
    assert!(std::ptr::eq(a, b));
    assert!(!std::ptr::eq(a, c));
    assert_eq!(c.get_value(&BROWSER_TYPE), Some("Browser"));
    assert_eq!(c.get_value(&PLATFORM), Some("P"));
}

#[test]
fn probes_rule_out_without_changing_results() {
    let parser = parser_of(vec![
        row("mozilla/5.0*chrome*", "Chrome", "1", "P", "D"),
        row("*firefox*", "Firefox", "1", "P", "D"),
        row("opera*", "Opera", "1", "P", "D"),
    ]);
    assert_eq!(parser.parse("Mozilla/5.0 Chrome/1").get_browser(), Some("Chrome"));
    assert_eq!(parser.parse("Mozilla/4.0 Chrome/1").get_browser(), Some("Default Browser"));
    assert_eq!(parser.parse("Mozilla/4.0 Firefox/1").get_browser(), Some("Firefox"));
    assert_eq!(parser.parse("Opera/9").get_browser(), Some("Opera"));
}

#[test]
fn rules_come_out_in_global_order() {
    let mut pool = LiteralPool::new();
    let mut rules = Vec::new();
    for p in ["b", "aaa", "a", "cc", "bb", "a*", "*z*"] {
        rules.push(create_rule(&mut pool, p, 0).unwrap());
    }
    let sorted = browscap_rs::order::get_ordered_rules(rules);
    let patterns: Vec<String> = sorted.iter().map(|r| r.get_pattern()).collect();
    assert_eq!(patterns, vec!["*z*", "aaa", "a", "bb", "cc", "a", "b"]);
    let sizes: Vec<usize> = sorted.iter().map(|r| r.get_size()).collect();
    assert_eq!(sizes, vec![3, 3, 2, 2, 2, 1, 1]);
}

fn shareable_between_threads<T: Send + Sync>() {}

#[test]
fn repeated_parsing_is_stable_and_parser_is_shareable() {
    shareable_between_threads::<UserAgentParser>();
    let parser = parser_of(vec![
        row("mozilla/5.0*chrome*", "Chrome", "1", "P", "D"),
        row("*firefox*", "Firefox", "2", "P", "D"),
        row("opera*", "Opera", "3", "P", "D"),
    ]);
    let corpus: Vec<String> = (0..10_000)
        .map(|i| match i % 4 {
            0 => format!("Mozilla/5.0 Chrome/{}", i),
            1 => format!("x Firefox/{}", i),
            2 => format!("Opera/{}", i),
            _ => format!("other/{}", i),
        })
        .collect();
    let first: Vec<Option<String>> = corpus.iter().map(|ua| parser.parse(ua).get_browser().map(|s| s.to_string())).collect();
    let second: Vec<Option<String>> = corpus.iter().map(|ua| parser.parse(ua).get_browser().map(|s| s.to_string())).collect();
    assert_eq!(first, second);
    assert_eq!(first[0].as_deref(), Some("Chrome"));
    assert_eq!(first[1].as_deref(), Some("Firefox"));
    assert_eq!(first[2].as_deref(), Some("Opera"));
    assert_eq!(first[3].as_deref(), Some("Default Browser"));
}

#[test]
fn probe_lists_are_the_fixed_tokens() {
    let prefixes = browscap_rs::parser::filter_prefixes();
    assert_eq!(prefixes, vec!["mozilla/5.0", "mozilla/4"]);
    let commons = browscap_rs::parser::common_probes();
    assert_eq!(commons.len(), 75);
    assert_eq!(commons[0], "-");
    assert_eq!(commons[27], "cpu os ");
    assert_eq!(commons[74], "android?5");
    let mut pool = LiteralPool::new();
    let rules = vec![create_rule(&mut pool, "mozilla/5.0*chrome*", 0).unwrap()];
    let filters = browscap_rs::parser::build_filters(&rules, &mut pool);
    assert_eq!(filters.len(), 77);
}

#[test]
fn cells_lose_unicode_white_space() {
    let mut r = row("edge*", "\u{a0}Edge\u{3000}", "1", "P", "D");
    r[13] = "\u{2003}\t".to_string();
    let parser = parser_of(vec![r]);
    let c = parser.parse("edge/1");
    assert_eq!(c.get_browser(), Some("Edge"));
    assert_eq!(c.get_platform(), Some("Unknown"));
}
