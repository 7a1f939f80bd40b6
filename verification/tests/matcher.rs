use general_pub_sub::channel_is_pattern;
use general_pub_sub::pattern_matches;

#[test]
fn star_pattern_matches_any_suffix() {
    assert!(pattern_matches("channel.*", "channel.a"));
    assert!(pattern_matches("channel.*", "channel.b"));
    assert!(!pattern_matches("channel.*", "other.a"));
}

#[test]
fn question_pattern_matches_exactly_one_character() {
    assert!(pattern_matches("channel.?", "channel.a"));
    assert!(!pattern_matches("channel.?", "channel.ab"));
    assert!(!pattern_matches("channel.?", "channel."));
}

#[test]
fn star_matches_the_empty_run() {
    assert!(pattern_matches("channel.*", "channel."));
    assert!(pattern_matches("*", ""));
    assert!(pattern_matches("a*b", "ab"));
}

#[test]
fn star_matches_long_runs() {
    assert!(pattern_matches("a*b", "a.whole.lot.in.between.b"));
    assert!(pattern_matches("*.*", "left.right"));
    assert!(!pattern_matches("a*b", "a.whole.lot.in.between.c"));
}

#[test]
fn literal_pattern_is_anchored_to_the_whole_name() {
    assert!(pattern_matches("channel", "channel"));
    assert!(!pattern_matches("channel", "channel.a"));
    assert!(!pattern_matches("channel", "chan"));
    assert!(!pattern_matches("hannel", "channel"));
}

#[test]
fn matching_is_case_sensitive() {
    assert!(!pattern_matches("Channel.*", "channel.a"));
    assert!(pattern_matches("channel.?", "channel.A"));
    assert!(!pattern_matches("CHANNEL", "channel"));
}

#[test]
fn wildcards_cannot_be_escaped() {
    assert!(pattern_matches("a\\*", "a\\anything"));
    assert!(!pattern_matches("a\\*", "a*"));
}

#[test]
fn empty_pattern_matches_only_the_empty_name() {
    assert!(pattern_matches("", ""));
    assert!(!pattern_matches("", "a"));
    assert!(!pattern_matches("?", ""));
}

#[test]
fn classification_finds_wildcards() {
    assert!(channel_is_pattern("channel.*"));
    assert!(channel_is_pattern("channel.?"));
    assert!(channel_is_pattern("*"));
    assert!(!channel_is_pattern("channel.a"));
    assert!(!channel_is_pattern(""));
}
