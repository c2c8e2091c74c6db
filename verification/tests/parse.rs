use agent_params::AgentParameters;
use agent_params::ParseError;

#[test]
fn defaults() {
    let ap = AgentParameters::parse("").unwrap();
    assert_eq!(ap.time_threshold, 1);
    assert_eq!(ap.count_threshold, 0);
    assert!(!ap.print_heap_histogram);
    assert_eq!(ap.heap_histogram_max_entries, 100);
    assert!(ap.print_memory_usage);
}

#[test]
fn parses_time_threshold() {
    let ap = AgentParameters::parse("time=99").unwrap();
    assert_eq!(ap.time_threshold, 99);
}

#[test]
fn parses_time_threshold_default() {
    let ap = AgentParameters::parse("time=").unwrap();
    assert_eq!(ap.time_threshold, 1);
}

#[test]
fn parses_time_threshold_invalid() {
    let r = AgentParameters::parse("time=forever");
    assert_eq!(r, Err(ParseError::InvalidNumber(String::from("forever"))));
}

#[test]
fn parses_count_threshold() {
    let ap = AgentParameters::parse("count=88").unwrap();
    assert_eq!(ap.count_threshold, 88);
}

#[test]
fn parses_count_threshold_default() {
    let ap = AgentParameters::parse("count=").unwrap();
    assert_eq!(ap.count_threshold, 0);
}

#[test]
fn parses_count_threshold_invalid() {
    let r = AgentParameters::parse("count=zero");
    assert_eq!(r, Err(ParseError::InvalidNumber(String::from("zero"))));
}

#[test]
fn parses_print_heap_histogram_on() {
    let ap = AgentParameters::parse("printHeapHistogram=1").unwrap();
    assert!(ap.print_heap_histogram);
}

#[test]
fn parses_print_heap_histogram_off() {
    let ap = AgentParameters::parse("printHeapHistogram=0").unwrap();
    assert!(!ap.print_heap_histogram);
}

#[test]
fn parses_print_heap_histogram_default() {
    let ap = AgentParameters::parse("printHeapHistogram=").unwrap();
    assert!(!ap.print_heap_histogram);
}

#[test]
fn parses_print_heap_histogram_invalid() {
    let r = AgentParameters::parse("printHeapHistogram=true");
    assert_eq!(r, Err(ParseError::InvalidNumber(String::from("true"))));
}

#[test]
fn parses_heap_histogram_max_entries() {
    let ap = AgentParameters::parse("heapHistogramMaxEntries=200").unwrap();
    assert_eq!(ap.heap_histogram_max_entries, 200);
}

#[test]
fn parses_heap_histogram_max_entries_unlimited() {
    let ap = AgentParameters::parse("heapHistogramMaxEntries=0").unwrap();
    assert_eq!(ap.heap_histogram_max_entries, 0);
}

#[test]
fn parses_heap_histogram_max_entries_default() {
    let ap = AgentParameters::parse("heapHistogramMaxEntries=").unwrap();
    assert_eq!(ap.heap_histogram_max_entries, 100);
}

#[test]
fn parses_heap_histogram_max_entries_invalid() {
    let r = AgentParameters::parse("heapHistogramMaxEntries=unlimited");
    assert_eq!(r, Err(ParseError::InvalidNumber(String::from("unlimited"))));
}

#[test]
fn parses_print_memory_usage_on() {
    let ap = AgentParameters::parse("printMemoryUsage=1").unwrap();
    assert!(ap.print_memory_usage);
}

#[test]
fn parses_print_memory_usage_off() {
    let ap = AgentParameters::parse("printMemoryUsage=0").unwrap();
    assert!(!ap.print_memory_usage);
}

#[test]
fn parses_print_memory_usage_default() {
    let ap = AgentParameters::parse("printMemoryUsage=").unwrap();
    assert!(ap.print_memory_usage);
}

#[test]
fn parses_print_memory_usage_invalid() {
    let r = AgentParameters::parse("printMemoryUsage=false");
    assert_eq!(r, Err(ParseError::InvalidNumber(String::from("false"))));
}

#[test]
fn unknown_option() {
    let r = AgentParameters::parse("noSuch=0");
    assert_eq!(r, Err(ParseError::UnknownKey(String::from("noSuch"))));
}

#[test]
fn invalid_option() {
    let r = AgentParameters::parse("noequals");
    assert_eq!(r, Err(ParseError::MalformedEntry(String::from("noequals"))));
}

#[test]
fn parse_is_idempotent() {
    let a = AgentParameters::parse("time=3,count=4,printHeapHistogram=1");
    let b = AgentParameters::parse("time=3,count=4,printHeapHistogram=1");
    assert_eq!(a, b);
    assert_eq!(AgentParameters::parse(""), AgentParameters::parse(""));
}

#[test]
fn last_write_wins() {
    let ap = AgentParameters::parse("time=1,time=2").unwrap();
    assert_eq!(ap.time_threshold, 2);
}

#[test]
fn empty_entries_are_skipped() {
    let ap = AgentParameters::parse(",,time=5,").unwrap();
    assert_eq!(ap.time_threshold, 5);
    assert_eq!(ap.count_threshold, 0);
    assert_eq!(ap.heap_histogram_max_entries, 100);
}

#[test]
fn several_keys_in_one_string() {
    let ap = AgentParameters::parse("time=7,count=9,printMemoryUsage=0").unwrap();
    assert_eq!(ap.time_threshold, 7);
    assert_eq!(ap.count_threshold, 9);
    assert!(!ap.print_memory_usage);
    assert!(!ap.print_heap_histogram);
    assert_eq!(ap.heap_histogram_max_entries, 100);
}

#[test]
fn empty_key_is_unknown() {
    let r = AgentParameters::parse("=1");
    assert_eq!(r, Err(ParseError::UnknownKey(String::new())));
}

#[test]
fn value_keeps_later_equals_sign() {
    let r = AgentParameters::parse("time=1=2");
    assert_eq!(r, Err(ParseError::InvalidNumber(String::from("1=2"))));
}

#[test]
fn overflowing_number_is_invalid() {
    let r = AgentParameters::parse("time=99999999999999999999999999");
    assert_eq!(
        r,
        Err(ParseError::InvalidNumber(String::from(
            "99999999999999999999999999"
        )))
    );
}

#[test]
fn largest_value_is_accepted() {
    let input = format!("count={}", usize::MAX);
    let ap = AgentParameters::parse(&input).unwrap();
    assert_eq!(ap.count_threshold, usize::MAX);
}

#[test]
fn leading_plus_sign_is_accepted() {
    let ap = AgentParameters::parse("time=+42").unwrap();
    assert_eq!(ap.time_threshold, 42);
}

#[test]
fn bare_plus_sign_is_invalid() {
    let r = AgentParameters::parse("time=+");
    assert_eq!(r, Err(ParseError::InvalidNumber(String::from("+"))));
}

#[test]
fn nonzero_coerces_to_true() {
    let ap = AgentParameters::parse("printHeapHistogram=2").unwrap();
    assert!(ap.print_heap_histogram);
}

#[test]
fn first_failure_aborts_whole_parse() {
    let r = AgentParameters::parse("time=3,bogus,count=4");
    assert_eq!(r, Err(ParseError::MalformedEntry(String::from("bogus"))));
}

#[test]
fn default_record_matches_absent_keys() {
    let d = AgentParameters::default();
    let parsed = AgentParameters::parse("").unwrap();
    assert_eq!(d, parsed);
}
