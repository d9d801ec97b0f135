use grok::fancy_engine::{FancyRegexMatches, FancyRegexPattern};
use grok::onig_engine::{OnigMatches, OnigPattern};
use grok::pcre2_engine::{Pcre2Matches, Pcre2Pattern};
use grok::regex_engine::{RegexMatches, RegexPattern};
use grok::names::cut_pieces;
use grok::strmap::StrMap;
use grok::{Error, Grok};

const SOURCE: &str = "%{DAY:day} %{MONTH} %{YEAR:year}(?: by %{USERNAME:user})?";

fn dictionary() -> Grok {
    let mut grok = Grok::empty();
    grok.add_pattern("YEAR", r"(?:\d\d){1,2}");
    grok.add_pattern("MONTH", r"\b(?:Jan(?:uary)?|Mar(?:ch)?|May)\b");
    grok.add_pattern("DAY", r"(?:Mon(?:day)?|Tue(?:sday)?)");
    grok.add_pattern("USERNAME", r"[a-zA-Z0-9._-]+");
    grok
}

fn expanded() -> (String, StrMap<String>) {
    let (regex, aliases, _) = dictionary().compile_regex(SOURCE, false).unwrap();
    (regex, aliases)
}

fn pairs(it: &mut grok::MatchesIter<'_>) -> Vec<(String, String)> {
    let mut all = Vec::new();
    while let Some((k, v)) = it.next() {
        all.push((k.to_string(), v.to_string()));
    }
    all
}

fn owned(all: &[(&str, &str)]) -> Vec<(String, String)> {
    all.iter().map(|(k, v)| (k.to_string(), v.to_string())).collect()
}

#[test]
fn fancy_regex_engine_matches() {
    let (regex, aliases) = expanded();
    let pattern = FancyRegexPattern::new(&regex, &aliases).unwrap();
    assert_eq!(pattern.capture_names(), vec!["MONTH", "day", "user", "year"]);
    let matches = pattern.match_against("on Monday March 2012").unwrap();
    assert_eq!(matches.get("day"), Some("Monday"));
    assert_eq!(matches.get("MONTH"), Some("March"));
    assert_eq!(matches.get("year"), Some("2012"));
    assert_eq!(matches.get("user"), None);
    assert_eq!(matches.get("_n_0"), None);
    assert_eq!(
        pairs(&mut matches.iter()),
        owned(&[("MONTH", "March"), ("day", "Monday"), ("year", "2012")])
    );
    let matches = pattern.match_against("Tue May 99 by root").unwrap();
    assert_eq!(matches.text, "Tue May 99 by root");
    assert_eq!(matches.values[0], Some("Tue May 99 by root"));
    assert_eq!(
        pairs(&mut matches.iter()),
        owned(&[("MONTH", "May"), ("day", "Tue"), ("user", "root"), ("year", "99")])
    );
    assert!(pattern.match_against("Friday").is_none());
}

#[test]
fn pcre2_engine_matches() {
    let (regex, aliases) = expanded();
    let pattern = Pcre2Pattern::new(&regex, &aliases).unwrap();
    assert_eq!(pattern.capture_names(), vec!["MONTH", "day", "user", "year"]);
    let matches = pattern.match_against("on Monday March 2012").unwrap();
    assert_eq!(matches.get("day"), Some("Monday"));
    assert_eq!(matches.get("user"), None);
    assert_eq!(
        pairs(&mut matches.iter()),
        owned(&[("MONTH", "March"), ("day", "Monday"), ("year", "2012")])
    );
    assert!(pattern.match_against("Friday").is_none());
}

#[test]
fn onig_engine_matches() {
    let (regex, aliases) = expanded();
    let pattern = OnigPattern::new(&regex, &aliases).unwrap();
    assert_eq!(pattern.capture_names(), vec!["MONTH", "day", "user", "year"]);
    let matches = pattern.match_against("on Monday March 2012").unwrap();
    assert_eq!(matches.get("day"), Some("Monday"));
    assert_eq!(matches.get("MONTH"), Some("March"));
    assert_eq!(matches.get("user"), None);
    assert_eq!(
        pairs(&mut matches.iter()),
        owned(&[("MONTH", "March"), ("day", "Monday"), ("year", "2012")])
    );
    assert!(pattern.match_against("Friday").is_none());
}

#[test]
fn regex_engine_matches() {
    let (regex, aliases) = expanded();
    let pattern = RegexPattern::new(&regex, &aliases).unwrap();
    assert_eq!(pattern.capture_names(), vec!["MONTH", "day", "user", "year"]);
    let matches = pattern.match_against("on Monday March 2012").unwrap();
    assert_eq!(matches.text, "on Monday March 2012");
    assert_eq!(matches.len(), 4);
    assert!(!matches.is_empty());
    assert_eq!(matches.get("day"), Some("Monday"));
    assert_eq!(matches.get("user"), None);
    let mut it = matches.iter();
    assert_eq!(it.next(), Some(("MONTH", "March")));
    assert_eq!(it.next(), Some(("day", "Monday")));
    assert_eq!(it.next(), Some(("year", "2012")));
    assert_eq!(it.next(), None);
    assert_eq!(it.next(), None);
    assert!(pattern.match_against("Friday").is_none());

    let bare = RegexPattern::new("a+", &StrMap::new()).unwrap();
    let matches = bare.match_against("caab").unwrap();
    assert_eq!(matches.len(), 0);
    assert!(matches.is_empty());
}

#[test]
fn largest_group_number_wins() {
    // One key for a group written by hand and for a placeholder after it.
    let mut aliases = StrMap::new();
    aliases.insert("_n_0".to_string(), "capture".to_string());
    let regex = r"(?<capture>\w+) (?<_n_0>.*)";
    let fancy = FancyRegexPattern::new(regex, &aliases).unwrap();
    assert_eq!(fancy.capture_names(), vec!["capture"]);
    assert_eq!(fancy.match_against("word1 word2").unwrap().get("capture"), Some("word2"));
    let pcre2 = Pcre2Pattern::new(regex, &aliases).unwrap();
    assert_eq!(pcre2.match_against("word1 word2").unwrap().get("capture"), Some("word2"));
    let onig = OnigPattern::new(regex, &aliases).unwrap();
    assert_eq!(onig.capture_names(), vec!["capture"]);
    assert_eq!(onig.match_against("word1 word2").unwrap().get("capture"), Some("word2"));
    let plain = RegexPattern::new(regex, &aliases).unwrap();
    assert_eq!(plain.match_against("word1 word2").unwrap().get("capture"), Some("word2"));
    // The same name on two groups: Oniguruma lists both numbers under it.
    let onig = OnigPattern::new(r"(?<x>a)(?<x>b)", &StrMap::new()).unwrap();
    assert_eq!(onig.match_against("ab").unwrap().get("x"), Some("b"));
}

#[test]
fn engines_refuse_a_broken_regex() {
    let none = StrMap::new();
    match FancyRegexPattern::new("a(b", &none) {
        Err(Error::RegexCompilationFailed(detail)) => {
            assert!(detail.starts_with("Regex compilation failed: "));
            assert!(detail.ends_with(":\na(b"));
        }
        other => panic!("{other:?}"),
    }
    match Pcre2Pattern::new("a(b", &none) {
        Err(Error::RegexCompilationFailed(detail)) => {
            assert!(detail.starts_with("Regex compilation failed: "));
            assert!(detail.ends_with(":\na(b"));
        }
        other => panic!("{other:?}"),
    }
    match OnigPattern::new("a(b", &none) {
        Err(Error::RegexCompilationFailed(detail)) => {
            assert!(detail.starts_with("Regex compilation failed: "));
            assert!(detail.ends_with(":\na(b"));
        }
        other => panic!("{other:?}"),
    }
    match RegexPattern::new("a(b", &none) {
        Err(Error::RegexCompilationFailed(detail)) => assert_eq!(detail, "a(b"),
        other => panic!("{other:?}"),
    }
}

#[test]
fn captures_keep_their_characters() {
    let none = StrMap::new();
    let regex = r"(?<word>\p{L}+)é";
    let text = "zzz añoé";
    assert_eq!(
        FancyRegexPattern::new(regex, &none).unwrap().match_against(text).unwrap().get("word"),
        Some("año")
    );
    assert_eq!(
        Pcre2Pattern::new(regex, &none).unwrap().match_against(text).unwrap().get("word"),
        Some("año")
    );
    assert_eq!(
        OnigPattern::new(regex, &none).unwrap().match_against(text).unwrap().get("word"),
        Some("año")
    );
    assert_eq!(
        RegexPattern::new(regex, &none).unwrap().match_against(text).unwrap().get("word"),
        Some("año")
    );
}

#[test]
fn a_text_is_matched_the_same_each_time() {
    let (regex, aliases) = expanded();
    let text = "on Monday March 2012 by root";
    let fancy = FancyRegexPattern::new(&regex, &aliases).unwrap();
    assert_eq!(
        fancy.match_against(text).unwrap().values,
        fancy.match_against(text).unwrap().values
    );
    let pcre2 = Pcre2Pattern::new(&regex, &aliases).unwrap();
    assert_eq!(
        pcre2.match_against(text).unwrap().values,
        pcre2.match_against(text).unwrap().values
    );
    let onig = OnigPattern::new(&regex, &aliases).unwrap();
    assert_eq!(
        onig.match_against(text).unwrap().values,
        onig.match_against(text).unwrap().values
    );
    let plain = RegexPattern::new(&regex, &aliases).unwrap();
    assert_eq!(
        plain.match_against(text).unwrap().values,
        plain.match_against(text).unwrap().values
    );
    assert!(fancy.match_against("none").is_none() && fancy.match_against("none").is_none());
}

#[test]
fn matches_are_made_of_the_captures() {
    let (regex, aliases) = expanded();
    let text = "Monday March 2012";
    // Groups by number: the whole match, day, MONTH, year, user.
    let values = vec![Some(text), Some("Monday"), Some("March"), Some("2012"), None];
    let expected = owned(&[("MONTH", "March"), ("day", "Monday"), ("year", "2012")]);

    let fancy = FancyRegexPattern::new(&regex, &aliases).unwrap();
    let matches = FancyRegexMatches::new(text, values.clone(), &fancy);
    assert_eq!(matches.text, text);
    assert_eq!(matches.values, fancy.match_against(text).unwrap().values);
    assert_eq!(matches.get("year"), Some("2012"));
    assert_eq!(matches.get("user"), None);
    assert_eq!(pairs(&mut matches.iter()), expected);

    let pcre2 = Pcre2Pattern::new(&regex, &aliases).unwrap();
    let matches = Pcre2Matches::new(text, values.clone(), &pcre2);
    assert_eq!(matches.values, pcre2.match_against(text).unwrap().values);
    assert_eq!(pairs(&mut matches.iter()), expected);

    let onig = OnigPattern::new(&regex, &aliases).unwrap();
    let matches = OnigMatches::new(text, values.clone(), &onig);
    assert_eq!(matches.values, onig.match_against(text).unwrap().values);
    assert_eq!(pairs(&mut matches.iter()), expected);

    let plain = RegexPattern::new(&regex, &aliases).unwrap();
    let matches = RegexMatches::new(text, values, &plain);
    assert_eq!(matches.values, plain.match_against(text).unwrap().values);
    assert_eq!(matches.get("day"), Some("Monday"));
    // Captures that the engine did not make are read the same way.
    let matches = RegexMatches::new(text, vec![None, None, Some("x")], &plain);
    assert_eq!(matches.get("MONTH"), Some("x"));
    assert_eq!(matches.get("year"), None);
}

#[test]
fn patterns_keep_the_text_they_were_made_from() {
    let (regex, aliases) = expanded();
    assert_eq!(FancyRegexPattern::new(&regex, &aliases).unwrap().regex_text(), regex);
    assert_eq!(Pcre2Pattern::new(&regex, &aliases).unwrap().regex_text(), regex);
    assert_eq!(RegexPattern::new(&regex, &aliases).unwrap().regex_text(), regex);
    assert_eq!(RegexPattern::new("a|b", &aliases).unwrap().regex_text(), "a|b");
}

#[test]
fn captures_are_cut_at_the_spans() {
    let text = "añb";
    let cut = cut_pieces(
        text,
        &vec![Some((0, 4)), Some((1, 3)), None, Some((3, 3)), Some((1, 2)), Some((2, 1)), Some((3, 5))],
    );
    assert_eq!(cut, vec![Some("añb"), Some("ñ"), None, Some(""), None, None, None]);
    let none = StrMap::new();
    let regex = r"(?<a>ñ)(?<b>x)?";
    let matches = Pcre2Pattern::new(regex, &none).unwrap();
    assert_eq!(matches.match_against(text).unwrap().values, vec![Some("ñ"), Some("ñ"), None]);
    let matches = OnigPattern::new(regex, &none).unwrap();
    assert_eq!(matches.match_against(text).unwrap().values, vec![Some("ñ"), Some("ñ"), None]);
}
