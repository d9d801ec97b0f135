//! The patterns that a dictionary holds from the start: common fragments
//! for numbers, words, network addresses, paths, dates and log lines.

use vstd::prelude::*;

verus! {

/// The texts of some pairs of a name and a body.
pub open spec fn pair_texts(pairs: Seq<(&str, &str)>) -> Seq<(Seq<char>, Seq<char>)> {
    pairs.map_values(|p: (&str, &str)| (p.0@, p.1@))
}

/// The built-in patterns as plain values: pairs of a name and a body, in
/// the order of the names.
pub open spec fn default_patterns() -> Seq<(Seq<char>, Seq<char>)> {
    seq![
        ("BASE10NUM"@, r#"(?<![0-9.+-])(?>[+-]?(?:(?:[0-9]+(?:\.[0-9]+)?)|(?:\.[0-9]+)))"#@),
        ("BASE16FLOAT"@, r#"\b(?<![0-9A-Fa-f.])(?:[+-]?(?:0x)?(?:(?:[0-9A-Fa-f]+(?:\.[0-9A-Fa-f]*)?)|(?:\.[0-9A-Fa-f]+)))\b"#@),
        ("BASE16NUM"@, r#"(?<![0-9A-Fa-f])(?:[+-]?(?:0x)?(?:[0-9A-Fa-f]+))"#@),
        ("CISCOMAC"@, r#"(?:(?:[A-Fa-f0-9]{4}\.){2}[A-Fa-f0-9]{4})"#@),
        ("COMBINEDAPACHELOG"@, r#"%{COMMONAPACHELOG} %{QS:referrer} %{QS:agent}"#@),
        ("COMMONAPACHELOG"@, r#"%{IPORHOST:clientip} %{USER:ident} %{USER:auth} \[%{HTTPDATE:timestamp}\] "(?:%{WORD:verb} %{NOTSPACE:request}(?: HTTP/%{NUMBER:httpversion})?|%{DATA:rawrequest})" %{NUMBER:response} (?:%{NUMBER:bytes}|-)"#@),
        ("COMMONMAC"@, r#"(?:(?:[A-Fa-f0-9]{2}:){5}[A-Fa-f0-9]{2})"#@),
        ("DATA"@, r#".*?"#@),
        ("DATE"@, r#"%{DATE_US}|%{DATE_EU}"#@),
        ("DATESTAMP"@, r#"%{DATE}[- ]%{TIME}"#@),
        ("DATESTAMP_EVENTLOG"@, r#"%{YEAR}%{MONTHNUM2}%{MONTHDAY}%{HOUR}%{MINUTE}%{SECOND}"#@),
        ("DATESTAMP_OTHER"@, r#"%{DAY} %{MONTH} %{MONTHDAY} %{TIME} %{TZ} %{YEAR}"#@),
        ("DATESTAMP_RFC2822"@, r#"%{DAY}, %{MONTHDAY} %{MONTH} %{YEAR} %{TIME} %{ISO8601_TIMEZONE}"#@),
        ("DATESTAMP_RFC822"@, r#"%{DAY} %{MONTH} %{MONTHDAY} %{YEAR} %{TIME} %{TZ}"#@),
        ("DATE_EU"@, r#"%{MONTHDAY}[./-]%{MONTHNUM}[./-]%{YEAR}"#@),
        ("DATE_US"@, r#"%{MONTHNUM}[/-]%{MONTHDAY}[/-]%{YEAR}"#@),
        ("DAY"@, r#"(?:Mon(?:day)?|Tue(?:sday)?|Wed(?:nesday)?|Thu(?:rsday)?|Fri(?:day)?|Sat(?:urday)?|Sun(?:day)?)"#@),
        ("EMAILADDRESS"@, r#"%{EMAILLOCALPART}@%{HOSTNAME}"#@),
        ("EMAILLOCALPART"@, r#"[a-zA-Z][a-zA-Z0-9_.+-=:]+"#@),
        ("GREEDYDATA"@, r#".*"#@),
        ("HOSTNAME"@, r#"\b(?:[0-9A-Za-z][0-9A-Za-z-]{0,62})(?:\.(?:[0-9A-Za-z][0-9A-Za-z-]{0,62}))*(\.?|\b)"#@),
        ("HOSTPORT"@, r#"%{IPORHOST}:%{POSINT}"#@),
        ("HOUR"@, r#"(?:2[0123]|[01]?[0-9])"#@),
        ("HTTPDATE"@, r#"%{MONTHDAY}/%{MONTH}/%{YEAR}:%{TIME} %{INT}"#@),
        ("INT"@, r#"(?:[+-]?(?:[0-9]+))"#@),
        ("IP"@, r#"(?:%{IPV6}|%{IPV4})"#@),
        ("IPORHOST"@, r#"(?:%{IP}|%{HOSTNAME})"#@),
        ("IPV4"@, r#"(?<![0-9])(?:(?:[0-1]?[0-9]{1,2}|2[0-4][0-9]|25[0-5])[.](?:[0-1]?[0-9]{1,2}|2[0-4][0-9]|25[0-5])[.](?:[0-1]?[0-9]{1,2}|2[0-4][0-9]|25[0-5])[.](?:[0-1]?[0-9]{1,2}|2[0-4][0-9]|25[0-5]))(?![0-9])"#@),
        ("IPV6"@, r#"((([0-9A-Fa-f]{1,4}:){7}([0-9A-Fa-f]{1,4}|:))|(([0-9A-Fa-f]{1,4}:){6}(:[0-9A-Fa-f]{1,4}|((25[0-5]|2[0-4]\d|1\d\d|[1-9]?\d)(\.(25[0-5]|2[0-4]\d|1\d\d|[1-9]?\d)){3})|:))|(([0-9A-Fa-f]{1,4}:){5}(((:[0-9A-Fa-f]{1,4}){1,2})|:((25[0-5]|2[0-4]\d|1\d\d|[1-9]?\d)(\.(25[0-5]|2[0-4]\d|1\d\d|[1-9]?\d)){3})|:))|(([0-9A-Fa-f]{1,4}:){4}(((:[0-9A-Fa-f]{1,4}){1,3})|((:[0-9A-Fa-f]{1,4})?:((25[0-5]|2[0-4]\d|1\d\d|[1-9]?\d)(\.(25[0-5]|2[0-4]\d|1\d\d|[1-9]?\d)){3}))|:))|(([0-9A-Fa-f]{1,4}:){3}(((:[0-9A-Fa-f]{1,4}){1,4})|((:[0-9A-Fa-f]{1,4}){0,2}:((25[0-5]|2[0-4]\d|1\d\d|[1-9]?\d)(\.(25[0-5]|2[0-4]\d|1\d\d|[1-9]?\d)){3}))|:))|(([0-9A-Fa-f]{1,4}:){2}(((:[0-9A-Fa-f]{1,4}){1,5})|((:[0-9A-Fa-f]{1,4}){0,3}:((25[0-5]|2[0-4]\d|1\d\d|[1-9]?\d)(\.(25[0-5]|2[0-4]\d|1\d\d|[1-9]?\d)){3}))|:))|(([0-9A-Fa-f]{1,4}:){1}(((:[0-9A-Fa-f]{1,4}){1,6})|((:[0-9A-Fa-f]{1,4}){0,4}:((25[0-5]|2[0-4]\d|1\d\d|[1-9]?\d)(\.(25[0-5]|2[0-4]\d|1\d\d|[1-9]?\d)){3}))|:))|(:(((:[0-9A-Fa-f]{1,4}){1,7})|((:[0-9A-Fa-f]{1,4}){0,5}:((25[0-5]|2[0-4]\d|1\d\d|[1-9]?\d)(\.(25[0-5]|2[0-4]\d|1\d\d|[1-9]?\d)){3}))|:)))(%.+)?"#@),
        ("ISO8601_SECOND"@, r#"(?:%{SECOND}|60)"#@),
        ("ISO8601_TIMEZONE"@, r#"(?:Z|[+-]%{HOUR}(?::?%{MINUTE}))"#@),
        ("LOGLEVEL"@, r#"([Aa]lert|ALERT|[Tt]race|TRACE|[Dd]ebug|DEBUG|[Nn]otice|NOTICE|[Ii]nfo|INFO|[Ww]arn?(?:ing)?|WARN?(?:ING)?|[Ee]rr?(?:or)?|ERR?(?:OR)?|[Cc]rit?(?:ical)?|CRIT?(?:ICAL)?|[Ff]atal|FATAL|[Ss]evere|SEVERE|EMERG(?:ENCY)?|[Ee]merg(?:ency)?)"#@),
        ("MAC"@, r#"(?:%{CISCOMAC}|%{WINDOWSMAC}|%{COMMONMAC})"#@),
        ("MINUTE"@, r#"(?:[0-5][0-9])"#@),
        ("MONTH"@, r#"\b(?:Jan(?:uary|uar)?|Feb(?:ruary|ruar)?|M(?:a|ä)?r(?:ch|z)?|Apr(?:il)?|Ma(?:y|i)?|Jun(?:e|i)?|Jul(?:y)?|Aug(?:ust)?|Sep(?:tember)?|O(?:c|k)?t(?:ober)?|Nov(?:ember)?|De(?:c|z)(?:ember)?)\b"#@),
        ("MONTHDAY"@, r#"(?:(?:0[1-9])|(?:[12][0-9])|(?:3[01])|[1-9])"#@),
        ("MONTHNUM"@, r#"(?:0?[1-9]|1[0-2])"#@),
        ("MONTHNUM2"@, r#"(?:0[1-9]|1[0-2])"#@),
        ("NONNEGINT"@, r#"\b(?:[0-9]+)\b"#@),
        ("NOTSPACE"@, r#"\S+"#@),
        ("NUMBER"@, r#"(?:%{BASE10NUM})"#@),
        ("PATH"@, r#"(?:%{UNIXPATH}|%{WINPATH})"#@),
        ("POSINT"@, r#"\b(?:[1-9][0-9]*)\b"#@),
        ("PROG"@, r#"[\x21-\x5a\x5c\x5e-\x7e]+"#@),
        ("QS"@, r#"%{QUOTEDSTRING}"#@),
        ("QUOTEDSTRING"@, r#"(?>(?<!\\)(?>"(?>\\.|[^\\"]+)+"|""|(?>'(?>\\.|[^\\']+)+')|''|(?>`(?>\\.|[^\\`]+)+`)|``))"#@),
        ("SECOND"@, r#"(?:(?:[0-5]?[0-9]|60)(?:[:.,][0-9]+)?)"#@),
        ("SPACE"@, r#"\s*"#@),
        ("SYSLOGBASE"@, r#"%{SYSLOGTIMESTAMP:timestamp} (?:%{SYSLOGFACILITY} )?%{SYSLOGHOST:logsource} %{SYSLOGPROG}:"#@),
        ("SYSLOGFACILITY"@, r#"<%{NONNEGINT:facility}.%{NONNEGINT:priority}>"#@),
        ("SYSLOGHOST"@, r#"%{IPORHOST}"#@),
        ("SYSLOGPROG"@, r#"%{PROG:program}(?:\[%{POSINT:pid}\])?"#@),
        ("SYSLOGTIMESTAMP"@, r#"%{MONTH} +%{MONTHDAY} %{TIME}"#@),
        ("TIME"@, r#"(?!<[0-9])%{HOUR}:%{MINUTE}(?::%{SECOND})(?![0-9])"#@),
        ("TIMESTAMP_ISO8601"@, r#"%{YEAR}-%{MONTHNUM}-%{MONTHDAY}[T ]%{HOUR}:?%{MINUTE}(?::?%{SECOND})?%{ISO8601_TIMEZONE}?"#@),
        ("TTY"@, r#"(?:/dev/(pts|tty([pq])?)(\w+)?/?(?:[0-9]+))"#@),
        ("TZ"@, r#"(?:[APMCE][SD]T|UTC)"#@),
        ("UNIXPATH"@, r#"(/([\w_%!$@:.,+~-]+|\\.)*)+"#@),
        ("URI"@, r#"%{URIPROTO}://(?:%{USER}(?::[^@]*)?@)?(?:%{URIHOST})?(?:%{URIPATHPARAM})?"#@),
        ("URIHOST"@, r#"%{IPORHOST}(?::%{POSINT:port})?"#@),
        ("URIPARAM"@, r#"\?[A-Za-z0-9$.+!*'|(){},~@#%&/=:;_?\-\[\]<>]*"#@),
        ("URIPATH"@, r#"(?:/[A-Za-z0-9$.+!*'(){},~:;=@#%&_\-]*)+"#@),
        ("URIPATHPARAM"@, r#"%{URIPATH}(?:%{URIPARAM})?"#@),
        ("URIPROTO"@, r#"[A-Za-z]([A-Za-z0-9+\-.]+)+"#@),
        ("USER"@, r#"%{USERNAME}"#@),
        ("USERNAME"@, r#"[a-zA-Z0-9._-]+"#@),
        ("UUID"@, r#"[A-Fa-f0-9]{8}-(?:[A-Fa-f0-9]{4}-){3}[A-Fa-f0-9]{12}"#@),
        ("WINDOWSMAC"@, r#"(?:(?:[A-Fa-f0-9]{2}-){5}[A-Fa-f0-9]{2})"#@),
        ("WINPATH"@, r#"(?>[A-Za-z]+:|\\)(?:\\[^\\?*]*)+"#@),
        ("WORD"@, r#"\b\w+\b"#@),
        ("YEAR"@, r#"(?>\d\d){1,2}"#@),
    ]
}

/// Returns the default patterns, also used by the default constructor of `Grok`.
pub fn patterns() -> (r: Vec<(&'static str, &'static str)>)
    ensures
        pair_texts(r@) == default_patterns(),
{
    let r = vec![
        ("BASE10NUM", r#"(?<![0-9.+-])(?>[+-]?(?:(?:[0-9]+(?:\.[0-9]+)?)|(?:\.[0-9]+)))"#),
        ("BASE16FLOAT", r#"\b(?<![0-9A-Fa-f.])(?:[+-]?(?:0x)?(?:(?:[0-9A-Fa-f]+(?:\.[0-9A-Fa-f]*)?)|(?:\.[0-9A-Fa-f]+)))\b"#),
        ("BASE16NUM", r#"(?<![0-9A-Fa-f])(?:[+-]?(?:0x)?(?:[0-9A-Fa-f]+))"#),
        ("CISCOMAC", r#"(?:(?:[A-Fa-f0-9]{4}\.){2}[A-Fa-f0-9]{4})"#),
        ("COMBINEDAPACHELOG", r#"%{COMMONAPACHELOG} %{QS:referrer} %{QS:agent}"#),
        ("COMMONAPACHELOG", r#"%{IPORHOST:clientip} %{USER:ident} %{USER:auth} \[%{HTTPDATE:timestamp}\] "(?:%{WORD:verb} %{NOTSPACE:request}(?: HTTP/%{NUMBER:httpversion})?|%{DATA:rawrequest})" %{NUMBER:response} (?:%{NUMBER:bytes}|-)"#),
        ("COMMONMAC", r#"(?:(?:[A-Fa-f0-9]{2}:){5}[A-Fa-f0-9]{2})"#),
        ("DATA", r#".*?"#),
        ("DATE", r#"%{DATE_US}|%{DATE_EU}"#),
        ("DATESTAMP", r#"%{DATE}[- ]%{TIME}"#),
        ("DATESTAMP_EVENTLOG", r#"%{YEAR}%{MONTHNUM2}%{MONTHDAY}%{HOUR}%{MINUTE}%{SECOND}"#),
        ("DATESTAMP_OTHER", r#"%{DAY} %{MONTH} %{MONTHDAY} %{TIME} %{TZ} %{YEAR}"#),
        ("DATESTAMP_RFC2822", r#"%{DAY}, %{MONTHDAY} %{MONTH} %{YEAR} %{TIME} %{ISO8601_TIMEZONE}"#),
        ("DATESTAMP_RFC822", r#"%{DAY} %{MONTH} %{MONTHDAY} %{YEAR} %{TIME} %{TZ}"#),
        ("DATE_EU", r#"%{MONTHDAY}[./-]%{MONTHNUM}[./-]%{YEAR}"#),
        ("DATE_US", r#"%{MONTHNUM}[/-]%{MONTHDAY}[/-]%{YEAR}"#),
        ("DAY", r#"(?:Mon(?:day)?|Tue(?:sday)?|Wed(?:nesday)?|Thu(?:rsday)?|Fri(?:day)?|Sat(?:urday)?|Sun(?:day)?)"#),
        ("EMAILADDRESS", r#"%{EMAILLOCALPART}@%{HOSTNAME}"#),
        ("EMAILLOCALPART", r#"[a-zA-Z][a-zA-Z0-9_.+-=:]+"#),
        ("GREEDYDATA", r#".*"#),
        ("HOSTNAME", r#"\b(?:[0-9A-Za-z][0-9A-Za-z-]{0,62})(?:\.(?:[0-9A-Za-z][0-9A-Za-z-]{0,62}))*(\.?|\b)"#),
        ("HOSTPORT", r#"%{IPORHOST}:%{POSINT}"#),
        ("HOUR", r#"(?:2[0123]|[01]?[0-9])"#),
        ("HTTPDATE", r#"%{MONTHDAY}/%{MONTH}/%{YEAR}:%{TIME} %{INT}"#),
        ("INT", r#"(?:[+-]?(?:[0-9]+))"#),
        ("IP", r#"(?:%{IPV6}|%{IPV4})"#),
        ("IPORHOST", r#"(?:%{IP}|%{HOSTNAME})"#),
        ("IPV4", r#"(?<![0-9])(?:(?:[0-1]?[0-9]{1,2}|2[0-4][0-9]|25[0-5])[.](?:[0-1]?[0-9]{1,2}|2[0-4][0-9]|25[0-5])[.](?:[0-1]?[0-9]{1,2}|2[0-4][0-9]|25[0-5])[.](?:[0-1]?[0-9]{1,2}|2[0-4][0-9]|25[0-5]))(?![0-9])"#),
        ("IPV6", r#"((([0-9A-Fa-f]{1,4}:){7}([0-9A-Fa-f]{1,4}|:))|(([0-9A-Fa-f]{1,4}:){6}(:[0-9A-Fa-f]{1,4}|((25[0-5]|2[0-4]\d|1\d\d|[1-9]?\d)(\.(25[0-5]|2[0-4]\d|1\d\d|[1-9]?\d)){3})|:))|(([0-9A-Fa-f]{1,4}:){5}(((:[0-9A-Fa-f]{1,4}){1,2})|:((25[0-5]|2[0-4]\d|1\d\d|[1-9]?\d)(\.(25[0-5]|2[0-4]\d|1\d\d|[1-9]?\d)){3})|:))|(([0-9A-Fa-f]{1,4}:){4}(((:[0-9A-Fa-f]{1,4}){1,3})|((:[0-9A-Fa-f]{1,4})?:((25[0-5]|2[0-4]\d|1\d\d|[1-9]?\d)(\.(25[0-5]|2[0-4]\d|1\d\d|[1-9]?\d)){3}))|:))|(([0-9A-Fa-f]{1,4}:){3}(((:[0-9A-Fa-f]{1,4}){1,4})|((:[0-9A-Fa-f]{1,4}){0,2}:((25[0-5]|2[0-4]\d|1\d\d|[1-9]?\d)(\.(25[0-5]|2[0-4]\d|1\d\d|[1-9]?\d)){3}))|:))|(([0-9A-Fa-f]{1,4}:){2}(((:[0-9A-Fa-f]{1,4}){1,5})|((:[0-9A-Fa-f]{1,4}){0,3}:((25[0-5]|2[0-4]\d|1\d\d|[1-9]?\d)(\.(25[0-5]|2[0-4]\d|1\d\d|[1-9]?\d)){3}))|:))|(([0-9A-Fa-f]{1,4}:){1}(((:[0-9A-Fa-f]{1,4}){1,6})|((:[0-9A-Fa-f]{1,4}){0,4}:((25[0-5]|2[0-4]\d|1\d\d|[1-9]?\d)(\.(25[0-5]|2[0-4]\d|1\d\d|[1-9]?\d)){3}))|:))|(:(((:[0-9A-Fa-f]{1,4}){1,7})|((:[0-9A-Fa-f]{1,4}){0,5}:((25[0-5]|2[0-4]\d|1\d\d|[1-9]?\d)(\.(25[0-5]|2[0-4]\d|1\d\d|[1-9]?\d)){3}))|:)))(%.+)?"#),
        ("ISO8601_SECOND", r#"(?:%{SECOND}|60)"#),
        ("ISO8601_TIMEZONE", r#"(?:Z|[+-]%{HOUR}(?::?%{MINUTE}))"#),
        ("LOGLEVEL", r#"([Aa]lert|ALERT|[Tt]race|TRACE|[Dd]ebug|DEBUG|[Nn]otice|NOTICE|[Ii]nfo|INFO|[Ww]arn?(?:ing)?|WARN?(?:ING)?|[Ee]rr?(?:or)?|ERR?(?:OR)?|[Cc]rit?(?:ical)?|CRIT?(?:ICAL)?|[Ff]atal|FATAL|[Ss]evere|SEVERE|EMERG(?:ENCY)?|[Ee]merg(?:ency)?)"#),
        ("MAC", r#"(?:%{CISCOMAC}|%{WINDOWSMAC}|%{COMMONMAC})"#),
        ("MINUTE", r#"(?:[0-5][0-9])"#),
        ("MONTH", r#"\b(?:Jan(?:uary|uar)?|Feb(?:ruary|ruar)?|M(?:a|ä)?r(?:ch|z)?|Apr(?:il)?|Ma(?:y|i)?|Jun(?:e|i)?|Jul(?:y)?|Aug(?:ust)?|Sep(?:tember)?|O(?:c|k)?t(?:ober)?|Nov(?:ember)?|De(?:c|z)(?:ember)?)\b"#),
        ("MONTHDAY", r#"(?:(?:0[1-9])|(?:[12][0-9])|(?:3[01])|[1-9])"#),
        ("MONTHNUM", r#"(?:0?[1-9]|1[0-2])"#),
        ("MONTHNUM2", r#"(?:0[1-9]|1[0-2])"#),
        ("NONNEGINT", r#"\b(?:[0-9]+)\b"#),
        ("NOTSPACE", r#"\S+"#),
        ("NUMBER", r#"(?:%{BASE10NUM})"#),
        ("PATH", r#"(?:%{UNIXPATH}|%{WINPATH})"#),
        ("POSINT", r#"\b(?:[1-9][0-9]*)\b"#),
        ("PROG", r#"[\x21-\x5a\x5c\x5e-\x7e]+"#),
        ("QS", r#"%{QUOTEDSTRING}"#),
        ("QUOTEDSTRING", r#"(?>(?<!\\)(?>"(?>\\.|[^\\"]+)+"|""|(?>'(?>\\.|[^\\']+)+')|''|(?>`(?>\\.|[^\\`]+)+`)|``))"#),
        ("SECOND", r#"(?:(?:[0-5]?[0-9]|60)(?:[:.,][0-9]+)?)"#),
        ("SPACE", r#"\s*"#),
        ("SYSLOGBASE", r#"%{SYSLOGTIMESTAMP:timestamp} (?:%{SYSLOGFACILITY} )?%{SYSLOGHOST:logsource} %{SYSLOGPROG}:"#),
        ("SYSLOGFACILITY", r#"<%{NONNEGINT:facility}.%{NONNEGINT:priority}>"#),
        ("SYSLOGHOST", r#"%{IPORHOST}"#),
        ("SYSLOGPROG", r#"%{PROG:program}(?:\[%{POSINT:pid}\])?"#),
        ("SYSLOGTIMESTAMP", r#"%{MONTH} +%{MONTHDAY} %{TIME}"#),
        ("TIME", r#"(?!<[0-9])%{HOUR}:%{MINUTE}(?::%{SECOND})(?![0-9])"#),
        ("TIMESTAMP_ISO8601", r#"%{YEAR}-%{MONTHNUM}-%{MONTHDAY}[T ]%{HOUR}:?%{MINUTE}(?::?%{SECOND})?%{ISO8601_TIMEZONE}?"#),
        ("TTY", r#"(?:/dev/(pts|tty([pq])?)(\w+)?/?(?:[0-9]+))"#),
        ("TZ", r#"(?:[APMCE][SD]T|UTC)"#),
        ("UNIXPATH", r#"(/([\w_%!$@:.,+~-]+|\\.)*)+"#),
        ("URI", r#"%{URIPROTO}://(?:%{USER}(?::[^@]*)?@)?(?:%{URIHOST})?(?:%{URIPATHPARAM})?"#),
        ("URIHOST", r#"%{IPORHOST}(?::%{POSINT:port})?"#),
        ("URIPARAM", r#"\?[A-Za-z0-9$.+!*'|(){},~@#%&/=:;_?\-\[\]<>]*"#),
        ("URIPATH", r#"(?:/[A-Za-z0-9$.+!*'(){},~:;=@#%&_\-]*)+"#),
        ("URIPATHPARAM", r#"%{URIPATH}(?:%{URIPARAM})?"#),
        ("URIPROTO", r#"[A-Za-z]([A-Za-z0-9+\-.]+)+"#),
        ("USER", r#"%{USERNAME}"#),
        ("USERNAME", r#"[a-zA-Z0-9._-]+"#),
        ("UUID", r#"[A-Fa-f0-9]{8}-(?:[A-Fa-f0-9]{4}-){3}[A-Fa-f0-9]{12}"#),
        ("WINDOWSMAC", r#"(?:(?:[A-Fa-f0-9]{2}-){5}[A-Fa-f0-9]{2})"#),
        ("WINPATH", r#"(?>[A-Za-z]+:|\\)(?:\\[^\\?*]*)+"#),
        ("WORD", r#"\b\w+\b"#),
        ("YEAR", r#"(?>\d\d){1,2}"#),
    ];
    assert(pair_texts(r@) =~= default_patterns());
    r
}

} // verus!
