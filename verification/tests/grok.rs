use grok::{patterns, Grok};

const MONTH: &str = r"\b(?:Jan(?:uary)?|Feb(?:ruary)?|Mar(?:ch)?|Apr(?:il)?|May|Jun(?:e)?|Jul(?:y)?|Aug(?:ust)?|Sep(?:tember)?|Oct(?:ober)?|Nov(?:ember)?|Dec(?:ember)?)\b";
const DAY: &str = r"(?:Mon(?:day)?|Tue(?:sday)?|Wed(?:nesday)?|Thu(?:rsday)?|Fri(?:day)?|Sat(?:urday)?|Sun(?:day)?)";

#[test]
fn test_simple_anonymous_pattern() {
    let mut grok = Grok::empty();
    grok.add_pattern("USERNAME", r"[a-zA-Z0-9._-]+");
    let pattern = grok
        .compile("%{USERNAME}", false)
        .expect("Error while compiling!");

    let matches = pattern.match_against("root").expect("No matches found!");
    assert_eq!("root", matches.get("USERNAME").unwrap());
    assert_eq!(1, matches.len());
    let matches = pattern
        .match_against("john doe")
        .expect("No matches found!");
    assert_eq!("john", matches.get("USERNAME").unwrap());
    assert_eq!(1, matches.len());
}

#[test]
fn test_from_iter() {
    let patterns = [("USERNAME", r"[a-zA-Z0-9._-]+")];
    let grok = Grok::from_iter(&patterns);
    let pattern = grok
        .compile("%{USERNAME}", false)
        .expect("Error while compiling!");

    let matches = pattern.match_against("root").expect("No matches found!");
    assert_eq!("root", matches.get("USERNAME").unwrap());
    assert_eq!(1, matches.len());
    let matches = pattern
        .match_against("john doe")
        .expect("No matches found!");
    assert_eq!("john", matches.get("USERNAME").unwrap());
    assert_eq!(1, matches.len());
}

#[test]
fn test_from() {
    let grok = Grok::from([("USERNAME", r"[a-zA-Z0-9._-]+")]);
    let pattern = grok
        .compile("%{USERNAME}", false)
        .expect("Error while compiling!");

    let matches = pattern.match_against("root").expect("No matches found!");
    assert_eq!("root", matches.get("USERNAME").unwrap());
    assert_eq!(1, matches.len());
    let matches = pattern
        .match_against("john doe")
        .expect("No matches found!");
    assert_eq!("john", matches.get("USERNAME").unwrap());
    assert_eq!(1, matches.len());
}

#[test]
fn test_simple_named_pattern() {
    let mut grok = Grok::empty();
    grok.add_pattern("USERNAME", r"[a-zA-Z0-9._-]+");
    let pattern = grok
        .compile("%{USERNAME:usr}", false)
        .expect("Error while compiling!");

    let matches = pattern.match_against("root").expect("No matches found!");
    assert_eq!("root", matches.get("usr").unwrap());
    assert_eq!(1, matches.len());
    let matches = pattern
        .match_against("john doe")
        .expect("No matches found!");
    assert_eq!("john", matches.get("usr").unwrap());
    assert_eq!(1, matches.len());
}

#[test]
fn test_alias_anonymous_pattern() {
    let mut grok = Grok::empty();
    grok.add_pattern("USERNAME", r"[a-zA-Z0-9._-]+");
    grok.add_pattern("USER", r"%{USERNAME}");
    let pattern = grok
        .compile("%{USER}", false)
        .expect("Error while compiling!");

    let matches = pattern.match_against("root").expect("No matches found!");
    assert_eq!("root", matches.get("USER").unwrap());
    let matches = pattern
        .match_against("john doe")
        .expect("No matches found!");
    assert_eq!("john", matches.get("USER").unwrap());
}

#[test]
fn test_alias_named_pattern() {
    let mut grok = Grok::empty();
    grok.add_pattern("USERNAME", r"[a-zA-Z0-9._-]+");
    grok.add_pattern("USER", r"%{USERNAME}");
    let pattern = grok
        .compile("%{USER:usr}", false)
        .expect("Error while compiling!");

    let matches = pattern.match_against("root").expect("No matches found!");
    assert_eq!("root", matches.get("usr").unwrap());
    let matches = pattern
        .match_against("john doe")
        .expect("No matches found!");
    assert_eq!("john", matches.get("usr").unwrap());
}

#[test]
fn test_composite_or_pattern() {
    let mut grok = Grok::empty();
    grok.add_pattern("MAC", r"(?:%{CISCOMAC}|%{WINDOWSMAC}|%{COMMONMAC})");
    grok.add_pattern("CISCOMAC", r"(?:(?:[A-Fa-f0-9]{4}\.){2}[A-Fa-f0-9]{4})");
    grok.add_pattern("WINDOWSMAC", r"(?:(?:[A-Fa-f0-9]{2}-){5}[A-Fa-f0-9]{2})");
    grok.add_pattern("COMMONMAC", r"(?:(?:[A-Fa-f0-9]{2}:){5}[A-Fa-f0-9]{2})");
    let pattern = grok
        .compile("%{MAC}", false)
        .expect("Error while compiling!");

    let matches = pattern
        .match_against("5E:FF:56:A2:AF:15")
        .expect("No matches found!");
    assert_eq!("5E:FF:56:A2:AF:15", matches.get("MAC").unwrap());
    assert_eq!(2, matches.len());
    let matches = pattern
        .match_against("hello! 5E:FF:56:A2:AF:15 what?")
        .expect("No matches found!");
    assert_eq!("5E:FF:56:A2:AF:15", matches.get("MAC").unwrap());
    assert!(pattern.match_against("5E:FF").is_none());
}

#[test]
fn test_multiple_patterns() {
    let mut grok = Grok::empty();
    grok.add_pattern("YEAR", r"(\d\d){1,2}");
    grok.add_pattern("MONTH", MONTH);
    grok.add_pattern("DAY", DAY);
    let pattern = grok
        .compile("%{DAY} %{MONTH} %{YEAR}", false)
        .expect("Error while compiling!");
    assert_eq!(pattern.capture_names(), vec!["DAY", "MONTH", "YEAR"]);

    let matches = pattern
        .match_against("Monday March 2012")
        .expect("No matches found!");
    assert_eq!(matches.len(), 3);
    assert_eq!("Monday", matches.get("DAY").unwrap());
    assert_eq!("March", matches.get("MONTH").unwrap());
    assert_eq!("2012", matches.get("YEAR").unwrap());
    assert_eq!(None, matches.get("unknown"));
}

#[test]
fn test_with_alias_only() {
    let mut grok = Grok::empty();
    grok.add_pattern("MAC", r"(?:%{CISCOMAC}|%{WINDOWSMAC}|%{COMMONMAC})");
    grok.add_pattern("CISCOMAC", r"(?:(?:[A-Fa-f0-9]{4}\.){2}[A-Fa-f0-9]{4})");
    grok.add_pattern("WINDOWSMAC", r"(?:(?:[A-Fa-f0-9]{2}-){5}[A-Fa-f0-9]{2})");
    grok.add_pattern("COMMONMAC", r"(?:(?:[A-Fa-f0-9]{2}:){5}[A-Fa-f0-9]{2})");
    let pattern = grok
        .compile("%{MAC:macaddr}", true)
        .expect("Error while compiling!");

    let matches = pattern
        .match_against("5E:FF:56:A2:AF:15")
        .expect("No matches found!");
    assert_eq!("5E:FF:56:A2:AF:15", matches.get("macaddr").unwrap());
    assert_eq!(1, matches.len());
    let matches = pattern
        .match_against("hello! 5E:FF:56:A2:AF:15 what?")
        .expect("No matches found!");
    assert_eq!("5E:FF:56:A2:AF:15", matches.get("macaddr").unwrap());
    assert!(pattern.match_against("5E:FF").is_none());
}

#[test]
fn test_match_iterator() {
    let mut grok = Grok::empty();
    grok.add_pattern("YEAR", r"(\d\d){1,2}");
    grok.add_pattern("MONTH", MONTH);
    grok.add_pattern("DAY", DAY);
    grok.add_pattern("USERNAME", r"[a-zA-Z0-9._-]+");
    grok.add_pattern("SPACE", r"\s*");

    let pattern = grok
        .compile(
            "%{DAY:day} %{MONTH:month} %{YEAR:year}%{SPACE}%{USERNAME:user}?",
            true,
        )
        .expect("Error while compiling!");
    let matches = pattern
        .match_against("Monday March 2012 user")
        .expect("No matches found!");
    assert_eq!(matches.len(), 4);
    let mut found = 0;
    let mut it = matches.iter();
    while let Some((k, v)) = it.next() {
        match k {
            "day" => assert_eq!("Monday", v),
            "month" => assert_eq!("March", v),
            "year" => assert_eq!("2012", v),
            "user" => assert_eq!("user", v),
            e => panic!("{:?}", e),
        }
        found += 1;
    }
    assert_eq!(4, found);
}

#[test]
fn test_matches_into_iter() {
    let mut grok = Grok::empty();
    grok.add_pattern("YEAR", r"(\d\d){1,2}");
    grok.add_pattern("MONTH", MONTH);
    grok.add_pattern("DAY", DAY);
    grok.add_pattern("USERNAME", r"[a-zA-Z0-9._-]+");
    grok.add_pattern("SPACE", r"\s*");

    let pattern = grok
        .compile(
            "%{DAY:day} %{MONTH:month} %{YEAR:year}%{SPACE}%{USERNAME:user}?",
            true,
        )
        .expect("Error while compiling!");
    let matches = pattern
        .match_against("Monday March 2012 username")
        .expect("No matches found!");
    assert_eq!(matches.len(), 4);
    let mut found = 0;
    for (k, v) in matches.collect() {
        match k {
            "day" => assert_eq!("Monday", v),
            "month" => assert_eq!("March", v),
            "year" => assert_eq!("2012", v),
            "user" => assert_eq!("username", v),
            e => panic!("{:?}", e),
        }
        found += 1;
    }
    assert_eq!(4, found);
}

#[test]
fn test_loaded_default_patterns() {
    let grok = Grok::with_default_patterns();
    let pattern = grok
        .compile("%{DAY} %{MONTH} %{YEAR}", false)
        .expect("Error while compiling!");

    let matches = pattern
        .match_against("Monday March 2012")
        .expect("No matches found!");
    assert_eq!("Monday", matches.get("DAY").unwrap());
    assert_eq!("March", matches.get("MONTH").unwrap());
    assert_eq!("2012", matches.get("YEAR").unwrap());
    assert_eq!(None, matches.get("unknown"));
}

#[test]
fn test_compilation_of_all_default_patterns() {
    let grok = Grok::default();
    let mut num_checked = 0;
    let mut errors = vec![];
    for (key, _) in patterns() {
        let pattern = format!("%{{{}}}", key);
        match grok.compile(&pattern, false) {
            Ok(_) => (),
            Err(e) => errors.push((key, e)),
        }
        num_checked += 1;
    }
    assert!(num_checked > 0);
    if !errors.is_empty() {
        for (key, e) in errors {
            println!("Pattern {} failed to compile: {}", key, e.message());
        }
        panic!("Not all patterns compiled successfully");
    }
}

#[test]
fn test_adhoc_pattern() {
    let grok = Grok::default();
    let pattern = grok
        .compile(r"\[(?<threadname>[^\]]+)\]", false)
        .expect("Error while compiling!");

    let matches = pattern
        .match_against("[thread1]")
        .expect("No matches found!");
    assert_eq!("thread1", matches.get("threadname").unwrap());
    assert_eq!(matches.len(), 1);
}

#[test]
fn test_adhoc_pattern_in_iter() {
    let grok = Grok::default();
    let pattern = grok
        .compile(r"\[(?<threadname>[^\]]+)\]", false)
        .expect("Error while compiling!");

    let matches = pattern
        .match_against("[thread1]")
        .expect("No matches found!");
    let mut found = 0;
    assert_eq!(matches.len(), 1);
    let mut it = matches.iter();
    while let Some((k, v)) = it.next() {
        assert_eq!("threadname", k);
        assert_eq!("thread1", v);
        found += 1;
    }
    assert_eq!(1, found);
}

/// If multiple captures have the same name, the last one wins.
#[test]
fn test_adhoc_pattern_conflict() {
    let grok = Grok::with_default_patterns();
    let pattern = grok
        .compile(r"(?<capture>\w+) %{GREEDYDATA:capture}", true)
        .unwrap();
    assert_eq!(vec!["capture"], pattern.capture_names());
    let matches = pattern.match_against("word1 word2").unwrap();
    assert_eq!("word2", matches.get("capture").unwrap());
}

#[test]
fn test_capture_repeat() {
    let grok = Grok::with_default_patterns();
    let pattern = grok.compile(r"%{INT}{1,3}", false).unwrap();
    let matches = pattern.match_against("+1+2+3").unwrap();
    assert_eq!("+3", matches.get("INT").unwrap());
}

#[test]
fn test_pattern_with_definition() {
    let grok = Grok::default();
    let pattern = grok
        .compile(r"%{NEW_PATTERN:first=\w+} %{NEW_PATTERN:second}", false)
        .unwrap();
    let matches = pattern.match_against("word1 word2").unwrap();
    assert_eq!("word1", matches.get("first").unwrap());
    assert_eq!("word2", matches.get("second").unwrap());
}

#[test]
fn test_capture_names() {
    let mut grok = Grok::empty();
    grok.add_pattern("YEAR", r"(\d\d){1,2}");
    grok.add_pattern("MONTH", MONTH);
    grok.add_pattern("DAY", DAY);
    grok.add_pattern("USERNAME", r"[a-zA-Z0-9._-]+");
    grok.add_pattern("SPACE", r"\s*");

    let pattern = grok
        .compile("%{YEAR}%{SPACE}%{USERNAME:user}?", false)
        .expect("Error while compiling!");

    let expected = vec!["SPACE", "YEAR", "user"];
    let actual = pattern.capture_names();
    assert_eq!(expected, actual);
}

#[test]
fn test_capture_names_with_type() {
    let mut grok = Grok::empty();
    grok.add_pattern("USERNAME", r"[a-zA-Z0-9._-]+");
    grok.add_pattern("USER", r"%{USERNAME::text}");
    let pattern = grok
        .compile("%{USER:usr:text}", true)
        .expect("Error while compiling!");
    println!("{pattern:#?}");

    let actual = pattern.capture_names();
    assert_eq!(vec!["usr"], actual);

    assert_eq!(Some("text"), pattern.get_extract("usr"));
    assert_eq!(None, pattern.get_extract("USERNAME"));
    assert_eq!(None, pattern.get_extract("USER"));
    assert_eq!(None, pattern.get_extract("doesn't exist"));

    let pattern = grok
        .compile("%{USER:usr:text}", false)
        .expect("Error while compiling!");
    println!("{pattern:#?}");
}

#[test]
fn test_capture_error() {
    let grok = Grok::with_default_patterns();
    let pattern = grok
        .compile("Path: %{PATH}$", false)
        .expect("Error while compiling!");
    let matches =
        pattern.match_against("Path: /AAAAA/BBBBB/CCCCC/DDDDDDDDDDDDDD EEEEEEEEEEEEEEEEEEEEEEEE/");

    assert!(matches.is_none());
}
