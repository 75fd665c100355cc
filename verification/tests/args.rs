use minmax_sim::args::parse_args;
use minmax_sim::args::parse_u64;
use minmax_sim::args::DEFAULT_SIMULATIONS;
use minmax_sim::args::DEFAULT_THREADS;

fn argv(parts: &[&str]) -> Vec<String> {
    parts.iter().map(|p| p.to_string()).collect()
}

#[test]
fn parses_plain_decimals() {
    assert_eq!(parse_u64("0"), Some(0));
    assert_eq!(parse_u64("123"), Some(123));
    assert_eq!(parse_u64("100000000"), Some(100_000_000));
}

#[test]
fn accepts_a_leading_plus() {
    assert_eq!(parse_u64("+42"), Some(42));
    assert_eq!(parse_u64("+0"), Some(0));
}

#[test]
fn rejects_what_is_not_a_number() {
    assert_eq!(parse_u64(""), None);
    assert_eq!(parse_u64("+"), None);
    assert_eq!(parse_u64("abc"), None);
    assert_eq!(parse_u64("12x"), None);
    assert_eq!(parse_u64("-5"), None);
    assert_eq!(parse_u64("1 2"), None);
}

#[test]
fn respects_the_u64_ceiling() {
    assert_eq!(parse_u64("18446744073709551615"), Some(u64::MAX));
    assert_eq!(parse_u64("18446744073709551616"), None);
    assert_eq!(parse_u64("99999999999999999999999"), None);
}

#[test]
fn no_flags_means_defaults() {
    assert_eq!(parse_args(&argv(&["sim"])), (DEFAULT_SIMULATIONS, DEFAULT_THREADS));
}

#[test]
fn short_flags_set_both_values() {
    let args = argv(&["sim", "-s", "500", "-t", "2"]);
    assert_eq!(parse_args(&args), (500, 2));
}

#[test]
fn long_flags_set_both_values() {
    let args = argv(&["sim", "--simulations", "10", "--threads", "8"]);
    assert_eq!(parse_args(&args), (10, 8));
}

#[test]
fn a_bad_value_falls_back_to_the_default() {
    assert_eq!(parse_args(&argv(&["sim", "-s", "lots"])), (DEFAULT_SIMULATIONS, DEFAULT_THREADS));
    assert_eq!(parse_args(&argv(&["sim", "-t", "-3"])), (DEFAULT_SIMULATIONS, DEFAULT_THREADS));
}

#[test]
fn a_flag_without_a_value_is_ignored() {
    assert_eq!(parse_args(&argv(&["sim", "-s"])), (DEFAULT_SIMULATIONS, DEFAULT_THREADS));
    assert_eq!(parse_args(&argv(&["sim", "-t"])), (DEFAULT_SIMULATIONS, DEFAULT_THREADS));
}

#[test]
fn unknown_arguments_are_skipped() {
    let args = argv(&["sim", "--verbose", "-t", "3", "extra"]);
    assert_eq!(parse_args(&args), (DEFAULT_SIMULATIONS, 3));
}

#[test]
fn the_last_occurrence_wins() {
    let args = argv(&["sim", "-s", "1", "-s", "2"]);
    assert_eq!(parse_args(&args), (2, DEFAULT_THREADS));
}

#[test]
fn a_flag_value_is_not_itself_scanned() {
    // "-t" right after "-s" is consumed as the value of "-s".
    let args = argv(&["sim", "-s", "-t", "4"]);
    assert_eq!(parse_args(&args), (DEFAULT_SIMULATIONS, DEFAULT_THREADS));
}
