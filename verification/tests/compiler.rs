use grok::strmap::StrMap;
use grok::{patterns, Error, Grok, MAX_RECURSION};

fn abc() -> Grok {
    let mut grok = Grok::empty();
    grok.add_pattern("A", "a");
    grok.add_pattern("B", "b%{C}");
    grok.add_pattern("C", "c");
    grok
}

fn entries(map: &StrMap<String>) -> Vec<(String, String)> {
    (0..map.len())
        .map(|i| (map.key_at(i).to_string(), map.value_at(i).clone()))
        .collect()
}

fn owned(all: &[(&str, &str)]) -> Vec<(String, String)> {
    all.iter().map(|(k, v)| (k.to_string(), v.to_string())).collect()
}

#[test]
fn flat_regex_names_every_placeholder() {
    let (regex, aliases, extracts) = abc().compile_regex("^%{A:x} %{B}$", false).unwrap();
    assert_eq!(regex, "^(?<_n_0>a) (?<_n_1>b(?<_n_2>c))$");
    assert_eq!(
        entries(&aliases),
        owned(&[("_n_0", "x"), ("_n_1", "B"), ("_n_2", "C")])
    );
    assert_eq!(extracts.len(), 0);
}

#[test]
fn alias_only_names_the_aliased_placeholders() {
    let (regex, aliases, _) = abc().compile_regex("^%{A:x} %{B}$", true).unwrap();
    assert_eq!(regex, "^(?<_n_0>a) (?:b(?:c))$");
    assert_eq!(entries(&aliases), owned(&[("_n_0", "x")]));

    let mut grok = abc();
    grok.add_pattern("D", "%{A} %{A:first}%{B:second} %{C}");
    let (regex, aliases, _) = grok.compile_regex("%{D}", true).unwrap();
    assert_eq!(regex, "(?:(?:a) (?<_n_0>a)(?<_n_1>b(?:c)) (?:c))");
    assert_eq!(entries(&aliases), owned(&[("_n_0", "first"), ("_n_1", "second")]));
    let (regex, aliases, _) = grok.compile_regex("%{D}", false).unwrap();
    assert_eq!(
        regex,
        "(?<_n_0>(?<_n_1>a) (?<_n_2>a)(?<_n_3>b(?<_n_4>c)) (?<_n_5>c))"
    );
    assert_eq!(
        entries(&aliases),
        owned(&[
            ("_n_0", "D"),
            ("_n_1", "A"),
            ("_n_2", "first"),
            ("_n_3", "second"),
            ("_n_4", "C"),
            ("_n_5", "C[1]")
        ])
    );
}

#[test]
fn repeated_keys_are_numbered() {
    let (regex, aliases, _) = abc()
        .compile_regex("%{A} %{A} %{C:A} %{A:z} %{A}", false)
        .unwrap();
    assert_eq!(
        regex,
        "(?<_n_0>a) (?<_n_1>a) (?<_n_2>c) (?<_n_3>a) (?<_n_4>a)"
    );
    assert_eq!(
        entries(&aliases),
        owned(&[
            ("_n_0", "A"),
            ("_n_1", "A[1]"),
            ("_n_2", "A[2]"),
            ("_n_3", "z"),
            ("_n_4", "A[3]")
        ])
    );
    let pattern = abc().compile("%{A} %{A} %{C:A}", false).unwrap();
    assert_eq!(pattern.capture_names(), vec!["A", "A[1]", "A[2]"]);
    let matches = pattern.match_against("a a c").unwrap();
    assert_eq!(matches.get("A"), Some("a"));
    assert_eq!(matches.get("A[1]"), Some("a"));
    assert_eq!(matches.get("A[2]"), Some("c"));
}

#[test]
fn group_names_count_in_decimal() {
    let source = "%{A}".repeat(12);
    let (regex, aliases, _) = abc().compile_regex(&source, false).unwrap();
    assert!(regex.ends_with("(?<_n_9>a)(?<_n_10>a)(?<_n_11>a)"));
    assert!(regex.starts_with("(?<_n_0>a)(?<_n_1>a)"));
    assert_eq!(aliases.len(), 12);
    assert_eq!(aliases.get("_n_0").unwrap(), "A");
    assert_eq!(aliases.get("_n_10").unwrap(), "A[10]");
    assert_eq!(aliases.get("_n_11").unwrap(), "A[11]");
}

#[test]
fn extracts_are_recorded_under_the_key() {
    let (_, aliases, extracts) = abc()
        .compile_regex("%{A:x:int} %{A::float} %{A:x:text} %{C}", true)
        .unwrap();
    assert_eq!(
        entries(&aliases),
        owned(&[("_n_0", "x"), ("_n_1", "x[1]")])
    );
    assert_eq!(entries(&extracts), owned(&[("x", "int"), ("x[1]", "text")]));
    let (_, _, extracts) = abc()
        .compile_regex("%{A:x:int} %{A::float}", false)
        .unwrap();
    assert_eq!(entries(&extracts), owned(&[("A", "float"), ("x", "int")]));
    let pattern = abc().compile("%{A:x:int} %{A::float}", false).unwrap();
    assert_eq!(pattern.get_extract("x"), Some("int"));
    assert_eq!(pattern.get_extract("A"), Some("float"));
    assert_eq!(pattern.get_extract("_n_0"), None);
}

#[test]
fn literal_text_is_kept() {
    let grok = Grok::empty();
    let source = r"100% (%){x} \x25{y} ñ%";
    let (regex, aliases, _) = grok.compile_regex(source, false).unwrap();
    assert_eq!(regex, source);
    assert_eq!(aliases.len(), 0);
    let pattern = grok.compile(r"\d+%", true).unwrap();
    assert_eq!(pattern.regex_text(), r"\d+%");
    assert_eq!(pattern.match_against("at 50% now").unwrap().len(), 0);
}

#[test]
fn empty_pattern_fails() {
    let grok = Grok::empty();
    let e = grok.compile("", false).unwrap_err();
    assert_eq!(e, Error::CompiledPatternIsEmpty(String::new()));
    assert_eq!(
        e.message(),
        "The given pattern \"\" ended up compiling into an empty regex"
    );
    assert_eq!(e.description(), "compiled pattern is empty");
    let (regex, _, _) = grok.compile_regex("", false).unwrap();
    assert_eq!(regex, "");
}

#[test]
fn unknown_name_fails() {
    let e = abc().compile("%{A} %{X:x} %{", false).unwrap_err();
    assert_eq!(e, Error::DefinitionNotFound("X".to_string()));
    assert_eq!(
        e.message(),
        "The given pattern definition name \"X\" could not be found in the definition map"
    );
    assert_eq!(e.description(), "pattern definition not found while compiling");
    let mut grok = abc();
    grok.add_pattern("D", "%{A}%{E}");
    assert_eq!(
        grok.compile_regex("%{C}%{D}", true).unwrap_err(),
        Error::DefinitionNotFound("E".to_string())
    );
}

#[test]
fn malformed_sources_fail() {
    let grok = Grok::with_default_patterns();
    for (source, detail) in [
        ("%{name:}", "InvalidPatternDefinition"),
        ("%{name=", "InvalidPatternDefinition"),
        ("%{name:a:b:c}", "InvalidPattern"),
        ("%{na.me:a:b}", "InvalidCharacter('.')"),
    ] {
        for alias_only in [false, true] {
            assert_eq!(
                grok.compile(source, alias_only).unwrap_err(),
                Error::GenericCompilationFailure(detail.to_string()),
                "{source}"
            );
        }
    }
    let e = abc().compile("%{A} %{B", false).unwrap_err();
    assert_eq!(e, Error::GenericCompilationFailure("InvalidPattern".to_string()));
    assert_eq!(
        e.message(),
        "Something unexpected happened during the compilation phase: \"InvalidPattern\""
    );
    assert_eq!(e.description(), "something happened during the compilation phase");
    // A malformed placeholder inside a body fails when the body is reached.
    let mut grok = abc();
    grok.add_pattern("BAD", "x%{A:}");
    assert!(grok.compile("%{A}", false).is_ok());
    assert_eq!(
        grok.compile("%{A}%{BAD}", false).unwrap_err(),
        Error::GenericCompilationFailure("InvalidPatternDefinition".to_string())
    );
}

#[test]
fn refused_regex_fails() {
    let e = abc().compile("%{A}(", false).unwrap_err();
    match &e {
        Error::RegexCompilationFailed(detail) => {
            assert!(detail.starts_with("Regex compilation failed: "));
            assert!(detail.ends_with(":\n(?<_n_0>a)("));
        }
        other => panic!("{other:?}"),
    }
    assert_eq!(e.description(), "regex compilation in the engine failed");
    assert_eq!(
        Error::RegexCompilationFailed("x".to_string()).message(),
        "The given regex \"x\" failed compilation in the underlying engine"
    );
}

fn chain(links: usize) -> Grok {
    let mut grok = Grok::empty();
    for i in 0..links {
        grok.add_pattern(&format!("LINK{i}"), &format!("%{{LINK{}}}", i + 1));
    }
    grok.add_pattern(&format!("LINK{links}"), "x");
    grok
}

#[test]
fn recursion_is_bounded() {
    assert_eq!(MAX_RECURSION, 1024);
    // The source is one level, and each body that is entered is one more.
    let fits = chain(MAX_RECURSION - 2);
    let (regex, aliases, _) = fits.compile_regex("%{LINK0}", false).unwrap();
    assert_eq!(aliases.len(), MAX_RECURSION - 1);
    assert!(regex.starts_with("(?<_n_0>(?<_n_1>(?<_n_2>"));
    assert!(regex.contains("(?<_n_1021>(?<_n_1022>x))"));
    assert!(regex.ends_with(&format!("x{}", ")".repeat(1023))));
    let (regex, _, _) = fits.compile_regex("%{LINK0}", true).unwrap();
    assert_eq!(regex.len(), 3 * 1023 + 1 + 1023);

    let deep = chain(MAX_RECURSION - 1);
    let e = deep.compile_regex("%{LINK0}", false).unwrap_err();
    assert_eq!(e, Error::RecursionTooDeep);
    assert_eq!(deep.compile("%{LINK0}", true).unwrap_err(), Error::RecursionTooDeep);
    assert!(deep.compile_regex("%{LINK1}", false).is_ok());
    assert_eq!(
        e.message(),
        "Recursion while compiling reached the limit of 1024"
    );
    assert_eq!(e.description(), "compilation recursion reached the limit");

    let mut grok = Grok::empty();
    grok.add_pattern("SELF", "a%{SELF}?");
    assert_eq!(grok.compile("%{SELF}", false).unwrap_err(), Error::RecursionTooDeep);
}

#[test]
fn definitions_are_known_in_their_body_and_inside_it() {
    let mut grok = Grok::empty();
    grok.add_pattern("OUTER", "<%{X}>");
    grok.add_pattern("MAKER", "%{Y=y}%{Y}");
    // A definition serves the placeholders after it in the same body.
    let (regex, _, _) = grok
        .compile_regex(r"%{X:first=\w+} %{X:second}", false)
        .unwrap();
    assert_eq!(regex, r"(?<_n_0>\w+) (?<_n_1>\w+)");
    // It serves the bodies that are entered from its body.
    let (regex, _, _) = grok.compile_regex("%{X=a}%{OUTER}", true).unwrap();
    assert_eq!(regex, "(?:a)(?:<(?:a)>)");
    // It is not known before it, nor after the body that made it has ended.
    assert_eq!(
        grok.compile_regex("%{OUTER}%{X=a}", true).unwrap_err(),
        Error::DefinitionNotFound("X".to_string())
    );
    assert_eq!(
        grok.compile_regex("%{MAKER}%{Y}", true).unwrap_err(),
        Error::DefinitionNotFound("Y".to_string())
    );
    // It goes before the dictionary, and a later one replaces it.
    grok.add_pattern("X", "dict");
    let (regex, _, _) = grok
        .compile_regex("%{X} %{X=one} %{X} %{X=two} %{OUTER}", true)
        .unwrap();
    assert_eq!(regex, "(?:dict) (?:one) (?:one) (?:two) (?:<(?:two)>)");
    // The dictionary itself is left as it was.
    assert_eq!(grok.get_pattern("X"), Some("dict"));
    // A body may name itself where a definition around it ends the descent.
    grok.add_pattern("LOOP", "(%{LOOP})");
    let (regex, _, _) = grok.compile_regex("%{LOOP=z}%{OUTER}", true).unwrap();
    assert_eq!(regex, "(?:z)(?:<(?:dict)>)");
}

#[test]
fn dictionary_holds_the_last_body_of_a_name() {
    let mut grok = Grok::empty();
    assert_eq!(grok.get_pattern("A"), None);
    grok.add_pattern("A", "one");
    grok.add_pattern("B", "b");
    grok.add_pattern("A", "two");
    assert_eq!(grok.get_pattern("A"), Some("two"));
    assert_eq!(grok.get_pattern("B"), Some("b"));
    let copy = grok.clone();
    grok.add_pattern("B", "changed");
    assert_eq!(copy.get_pattern("A"), Some("two"));
    assert_eq!(copy.get_pattern("B"), Some("b"));
    let (regex, _, _) = copy.compile_regex("%{A}%{B}", true).unwrap();
    assert_eq!(regex, "(?:two)(?:b)");
    let grok = Grok::from([("A", "first"), ("B", "b"), ("A", "second")]);
    assert_eq!(grok.get_pattern("A"), Some("second"));
    let grok = Grok::from_iter(&[("A", "first"), ("A", "second")]);
    assert_eq!(grok.get_pattern("A"), Some("second"));
}

#[test]
fn default_patterns_are_in_order() {
    let table = patterns();
    assert!(table.len() > 50);
    for pair in table.windows(2) {
        assert!(pair[0].0 < pair[1].0, "{} {}", pair[0].0, pair[1].0);
    }
    let grok = Grok::default();
    for (name, body) in &table {
        assert!(!name.is_empty());
        assert!(name.chars().all(|c| c.is_ascii_alphanumeric() || c == '_'));
        assert_eq!(grok.get_pattern(name), Some(*body));
    }
    assert_eq!(grok.get_pattern("GREEDYDATA"), Some(".*"));
    assert_eq!(grok.get_pattern("INT"), Some("(?:[+-]?(?:[0-9]+))"));
    assert_eq!(Grok::empty().get_pattern("INT"), None);
}

#[test]
fn matches_know_their_pattern_and_their_pairs() {
    let pattern = abc().compile("%{A:x}(?:%{C:y})?%{B:z}", true).unwrap();
    assert_eq!(pattern.regex_text(), "(?<_n_0>a)(?:(?<_n_1>c))?(?<_n_2>b(?:c))");
    assert_eq!(pattern.capture_names(), vec!["x", "y", "z"]);
    assert_eq!(pattern.extract_map().len(), 0);
    let matches = pattern.match_against("--abc--").unwrap();
    assert_eq!(matches.pattern().regex_text(), pattern.regex_text());
    assert_eq!(matches.collect(), vec![("x", "a"), ("z", "bc")]);
    assert_eq!(matches.len(), 2);
    assert_eq!(matches.get("x"), Some("a"));
    assert_eq!(matches.get("y"), None);
    assert_eq!(matches.get("z"), Some("bc"));
    // Each pair that is handed out is what `get` finds, and the other keys
    // have no capture.
    for key in pattern.capture_names() {
        let found = matches.collect().into_iter().find(|(k, _)| *k == key).map(|(_, v)| v);
        assert_eq!(matches.get(key), found);
    }
    let matches = pattern.match_against("acbc").unwrap();
    assert_eq!(matches.collect(), vec![("x", "a"), ("y", "c"), ("z", "bc")]);
    assert!(pattern.match_against("ab").is_none());
}

#[test]
fn a_key_that_is_taken_fails() {
    // The third group would show under `x[1]`, which the first one has.
    for alias_only in [false, true] {
        assert_eq!(
            abc().compile_regex("%{A:x[1]} %{A:x} %{A:x}", alias_only).unwrap_err(),
            Error::GenericCompilationFailure("Alias x[1] already exists".to_string())
        );
        // So would the third group here, after the second has made the key.
        assert_eq!(
            abc().compile("%{A:x} %{A:x} %{A:x[1]}", alias_only).unwrap_err(),
            Error::GenericCompilationFailure("Alias x[1] already exists".to_string())
        );
        assert!(abc().compile_regex("%{A:x[1]} %{A:x}", alias_only).is_ok());
    }
    // A name counts like an alias where every placeholder gets a group.
    assert_eq!(
        abc().compile_regex("%{A:C[1]} %{C}%{C}", false).unwrap_err(),
        Error::GenericCompilationFailure("Alias C[1] already exists".to_string())
    );
    let (_, aliases, _) = abc().compile_regex("%{A:C[1]} %{C}%{C}", true).unwrap();
    assert_eq!(entries(&aliases), owned(&[("_n_0", "C[1]")]));
    // The other failures come first where they stand first.
    assert_eq!(
        abc().compile_regex("%{A:x[1]} %{A:x} %{X} %{A:x}", false).unwrap_err(),
        Error::DefinitionNotFound("X".to_string())
    );
    assert_eq!(
        Error::GenericCompilationFailure("Alias x[1] already exists".to_string()).message(),
        "Something unexpected happened during the compilation phase: \"Alias x[1] already exists\""
    );
}

#[test]
fn keys_of_a_compilation_are_distinct() {
    let mut grok = abc();
    grok.add_pattern("D", "%{A} %{A:first}%{B:second} %{C} %{A:C} %{B:first}");
    for alias_only in [false, true] {
        let (_, aliases, _) = grok.compile_regex("%{D} %{D:A} %{A}", alias_only).unwrap();
        let mut keys: Vec<String> = entries(&aliases).into_iter().map(|(_, key)| key).collect();
        let groups = keys.len();
        keys.sort();
        keys.dedup();
        assert_eq!(keys.len(), groups);
        let pattern = grok.compile("%{D} %{D:A} %{A}", alias_only).unwrap();
        assert_eq!(pattern.capture_names().len(), groups);
    }
}
