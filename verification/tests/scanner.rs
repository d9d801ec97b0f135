use grok::parser::{grok_split, GrokComponent, GrokPatternError};

fn components(pattern: &str) -> Vec<GrokComponent<'_>> {
    let mut split = grok_split(pattern);
    let mut all = Vec::new();
    while let Some(c) = split.next() {
        all.push(c);
    }
    all
}

fn has_error(pattern: &str) -> bool {
    components(pattern)
        .iter()
        .any(|c| matches!(c, GrokComponent::PatternError(_)))
}

#[test]
fn test_grok_split() {
    let pattern = "Hello, %{name}!";
    let texts: Vec<String> = components(pattern).iter().map(|c| c.to_text()).collect();
    assert_eq!(texts, vec!["Hello, ", "%{name}", "!"]);
}

#[test]
fn legal_grok_patterns() {
    for pattern in &[
        "%{name}",
        "%{name:name}",
        "%{name:name:name}",
        "%{name::name}",
        "%{name=defn}",
        "%{name:name=defn}",
        "%{name:name:name=defn}",
        "%{name:name[x]}",
        "%{name:name[x]:name[y]}",
    ] {
        println!("{pattern} -> {:?}", components(pattern));
        assert!(!has_error(pattern));
        let result = grok_split(pattern).next().unwrap();
        println!("{result:?}");

        for c in components(pattern) {
            match c {
                GrokComponent::RegularExpression { string, range, .. } => {
                    assert_eq!(&pattern[range], string);
                }
                GrokComponent::GrokPattern {
                    pattern: pattern_str,
                    range,
                    ..
                } => {
                    assert_eq!(&pattern[range], pattern_str);
                }
                _ => unreachable!(),
            }
        }
    }
}

#[test]
fn real_grok_patterns() {
    for pattern in &[
        r"(?:\(Views: %{NUMBER:viewms}ms \| ActiveRecord: %{NUMBER:activerecordms}ms|\(ActiveRecord: %{NUMBER:activerecordms}ms)?",
        r"%{NUMBER:ts}\t%{NOTSPACE:uid}\t%{IP:orig_h}\t%{INT:orig_p}\t%{IP:resp_h}\t%{INT:resp_p}\t%{WORD:proto}\t%{INT:trans_id}\t%{GREEDYDATA:query}\t%{GREEDYDATA:qclass}\t%{GREEDYDATA:qclass_name}\t%{GREEDYDATA:qtype}\t%{GREEDYDATA:qtype_name}\t%{GREEDYDATA:rcode}\t%{GREEDYDATA:rcode_name}\t%{GREEDYDATA:AA}\t%{GREEDYDATA:TC}\t%{GREEDYDATA:RD}\t%{GREEDYDATA:RA}\t%{GREEDYDATA:Z}\t%{GREEDYDATA:answers}\t%{GREEDYDATA:TTLs}\t%{GREEDYDATA:rejected}",
    ] {
        println!("{pattern} -> {:?}", components(pattern));
        assert!(!has_error(pattern));
        let result = grok_split(pattern).next().unwrap();
        println!("{result:?}");
    }
}

#[test]
fn illegal_grok_patterns() {
    for pattern in &[
        "%{name",
        "%{name=",
        "%{name=}",
        "%{name=a",
        "%{name:",
        "%{name:}", // capture must be provided if alias is empty
        "%{name:a",
        "%{name:a:b",
        "%{name::",
        "%{name::b",
        "%{name:a:}",
        "%{name::}",
        "%{na.me:a:b}",
        "%{name:a:b:c}",
        "%{name:a:b:c:d}",
    ] {
        println!("{pattern} -> {:?}", components(pattern));

        assert!(has_error(pattern), "{pattern} should have failed");
    }
}

fn fields<'a>(c: &GrokComponent<'a>) -> (&'a str, &'a str, &'a str, &'a str) {
    match c {
        GrokComponent::GrokPattern {
            name,
            alias,
            extract,
            definition,
            ..
        } => (name, alias, extract, definition),
        other => panic!("no placeholder: {other:?}"),
    }
}

#[test]
fn placeholder_fields_are_read() {
    assert_eq!(fields(&components("%{name}")[0]), ("name", "", "", ""));
    assert_eq!(fields(&components("%{N_1:a-b}")[0]), ("N_1", "a-b", "", ""));
    assert_eq!(fields(&components("%{N:a[0].x:int}")[0]), ("N", "a[0].x", "int", ""));
    assert_eq!(fields(&components("%{N::int}")[0]), ("N", "", "int", ""));
    assert_eq!(fields(&components(r"%{N=\d+}")[0]), ("N", "", "", r"\d+"));
    assert_eq!(fields(&components(r"%{N:a=\d+}")[0]), ("N", "a", "", r"\d+"));
    assert_eq!(fields(&components("%{N:a:b=x y}")[0]), ("N", "a", "b", "x y"));
    assert_eq!(fields(&components("%{N::b=é}")[0]), ("N", "", "b", "é"));
}

#[test]
fn ranges_are_byte_offsets() {
    let source = "é%{A}ü%{B:b}";
    let all = components(source);
    assert_eq!(all.len(), 4);
    let mut end = 0;
    let mut joined = String::new();
    for c in &all {
        match c {
            GrokComponent::RegularExpression { range, string } => {
                assert_eq!(range.start, end);
                assert_eq!(&source[range.clone()], *string);
                end = range.end;
            }
            GrokComponent::GrokPattern { range, pattern, .. } => {
                assert_eq!(range.start, end);
                assert_eq!(&source[range.clone()], *pattern);
                end = range.end;
            }
            GrokComponent::PatternError(e) => panic!("{e:?}"),
        }
        joined.push_str(&c.to_text());
    }
    assert_eq!(end, source.len());
    assert_eq!(joined, source);
    match &all[1] {
        GrokComponent::GrokPattern { range, .. } => assert_eq!(range.clone(), 2..6),
        other => panic!("{other:?}"),
    }
}

#[test]
fn percent_without_brace_is_literal() {
    let texts: Vec<String> = components("100% of %{A}%").iter().map(|c| c.to_text()).collect();
    assert_eq!(texts, vec!["100", "% of ", "%{A}", "%"]);
    // A percent sign before one that opens a placeholder is a literal of its own.
    let all = components("%%{name}");
    assert_eq!(all.len(), 2);
    match &all[0] {
        GrokComponent::RegularExpression { range, string } => {
            assert_eq!((range.clone(), *string), (0..1, "%"));
        }
        other => panic!("{other:?}"),
    }
    match &all[1] {
        GrokComponent::GrokPattern { range, pattern, .. } => {
            assert_eq!((range.clone(), *pattern), (1..8, "%{name}"));
        }
        other => panic!("{other:?}"),
    }
    assert_eq!(fields(&all[1]), ("name", "", "", ""));
    let texts: Vec<String> = components("%%%{A}%%").iter().map(|c| c.to_text()).collect();
    assert_eq!(texts, vec!["%", "%", "%{A}", "%", "%"]);
    let texts: Vec<String> = components("(%){A}").iter().map(|c| c.to_text()).collect();
    assert_eq!(texts, vec!["(", "%){A}"]);
    let texts: Vec<String> = components("%é%").iter().map(|c| c.to_text()).collect();
    assert_eq!(texts, vec!["%é", "%"]);
    assert!(components("").is_empty());
}

#[test]
fn scanner_stops_after_an_error() {
    let mut split = grok_split("a%{b:}c%{d}");
    assert!(matches!(
        split.next(),
        Some(GrokComponent::RegularExpression { string: "a", .. })
    ));
    assert!(matches!(
        split.next(),
        Some(GrokComponent::PatternError(GrokPatternError::InvalidPatternDefinition))
    ));
    assert!(split.next().is_none());
    assert!(split.next().is_none());
}

fn first_error(pattern: &str) -> GrokPatternError {
    for c in components(pattern) {
        if let GrokComponent::PatternError(e) = c {
            return e;
        }
    }
    panic!("{pattern} has no error");
}

#[test]
fn each_error_has_its_input() {
    assert_eq!(first_error("%{name"), GrokPatternError::InvalidPattern);
    assert_eq!(first_error("%{}"), GrokPatternError::InvalidPattern);
    assert_eq!(first_error("%{:a}"), GrokPatternError::InvalidPattern);
    assert_eq!(first_error("%{name:a:b:c}"), GrokPatternError::InvalidPattern);
    assert_eq!(first_error("%{na.me:a:b}"), GrokPatternError::InvalidCharacter('.'));
    assert_eq!(first_error("%{name:a b}"), GrokPatternError::InvalidCharacter(' '));
    assert_eq!(first_error("%{namé}"), GrokPatternError::InvalidCharacter('é'));
    assert_eq!(first_error("%{name:a:b:c.}"), GrokPatternError::InvalidPattern);
    assert_eq!(first_error("%{name:a:b:c!}"), GrokPatternError::InvalidCharacter('!'));
    assert_eq!(first_error("%{name:}"), GrokPatternError::InvalidPatternDefinition);
    assert_eq!(first_error("%{name::}"), GrokPatternError::InvalidPatternDefinition);
    assert_eq!(first_error("%{name:a:}"), GrokPatternError::InvalidPatternDefinition);
    assert_eq!(first_error("%{name=}"), GrokPatternError::InvalidPatternDefinition);
    assert_eq!(first_error("%{name=a"), GrokPatternError::InvalidPatternDefinition);
    assert_eq!(first_error("%{name=a{b}}"), GrokPatternError::InvalidPatternDefinition);
    assert_eq!(first_error("%{name:=a}"), GrokPatternError::InvalidPatternDefinition);
}

#[test]
fn errors_are_described() {
    assert_eq!(GrokPatternError::InvalidPattern.describe(), "InvalidPattern");
    assert_eq!(
        GrokPatternError::InvalidPatternDefinition.describe(),
        "InvalidPatternDefinition"
    );
    assert_eq!(
        GrokPatternError::InvalidCharacter('.').describe(),
        "InvalidCharacter('.')"
    );
    assert_eq!(
        GrokPatternError::InvalidCharacter('\'').describe(),
        "InvalidCharacter('\\'')"
    );
    assert_eq!(
        components("%{na.me}")[0].to_text(),
        "<error InvalidCharacter('.')>"
    );
}
