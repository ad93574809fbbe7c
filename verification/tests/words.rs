use sentinel_core::words::{count_shared, goal_word_match, intent_word_match, split_words};

fn strs(v: &[&str]) -> Vec<String> {
    v.iter().map(|s| s.to_string()).collect()
}

#[test]
fn words_are_runs_between_white_space() {
    assert_eq!(split_words("  add   login\tpage\n"), strs(&["add", "login", "page"]));
    assert_eq!(split_words(""), Vec::<String>::new());
    assert_eq!(split_words(" \t "), Vec::<String>::new());
    assert_eq!(split_words("a\u{3000}b"), strs(&["a", "b"]));
    assert_eq!(split_words("naïve café"), strs(&["naïve", "café"]));
}

#[test]
fn shared_words_are_counted_with_repetition_above_a_length() {
    let words = strs(&["auth", "auth", "api", "login"]);
    let pool = strs(&["auth", "api", "page"]);
    assert_eq!(count_shared(&words, &pool, 3), 2);
    assert_eq!(count_shared(&words, &pool, 2), 3);
    assert_eq!(count_shared(&words, &pool, 4), 0);
    assert_eq!(count_shared(&strs(&["café"]), &strs(&["café"]), 4), 1);
}

#[test]
fn action_words_against_goal_and_intent() {
    let (matching, total) = goal_word_match(
        &"Implement JWT Authentication tokens".to_string(),
        &"implement authentication for the API".to_string(),
    );
    assert_eq!((matching, total), (2, 5));
    let (matching, total) = intent_word_match(
        &"Build the REST endpoints for users".to_string(),
        &"Build a secure REST API for users".to_string(),
    );
    // Words of more than four bytes: the action has "build", "endpoints"
    // and "users"; the intent has "build", "secure" and "users".
    assert_eq!((matching, total), (2, 3));
}
