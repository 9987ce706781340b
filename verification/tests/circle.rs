use ui::circle::{circle_tokens, pack_lines};

fn at_most(n: usize) -> impl Fn(&str) -> bool {
    move |s: &str| s.chars().count() <= n
}

#[test]
fn fitting_words_stay_whole() {
    assert_eq!(circle_tokens("hi there you", at_most(5)), vec!["hi", "there", "you"]);
    assert_eq!(circle_tokens("  spaced\tout\n", at_most(10)), vec!["spaced", "out"]);
    assert!(circle_tokens("", at_most(3)).is_empty());
    assert!(circle_tokens("   ", at_most(3)).is_empty());
}

#[test]
fn long_words_are_cut_greedily() {
    assert_eq!(circle_tokens("hello world", at_most(3)), vec!["hel", "lo", "wor", "ld"]);
    assert_eq!(circle_tokens("aaaaaaaaaa", at_most(4)), vec!["aaaa", "aaaa", "aa"]);
}

#[test]
fn a_single_character_is_taken_even_when_nothing_fits() {
    assert_eq!(circle_tokens("abc", |_: &str| false), vec!["a", "b", "c"]);
}

#[test]
fn cut_pieces_join_back_to_the_words() {
    let text = "manhwa bubbles wrap unspacedrunsofcharacters 안녕하세요";
    let tokens = circle_tokens(text, at_most(4));
    let joined: String = tokens.concat();
    let words: String = text.split_whitespace().collect();
    assert_eq!(joined, words);
    assert!(tokens.iter().all(|t| !t.is_empty() && t.chars().count() <= 4));
}

fn toks(v: &[&str]) -> Vec<String> {
    v.iter().map(|s| s.to_string()).collect()
}

fn widths(limits: Vec<usize>) -> impl Fn(usize, &str) -> bool {
    move |i: usize, s: &str| i < limits.len() && s.chars().count() <= limits[i]
}

#[test]
fn lines_are_filled_greedily_in_turn() {
    let tokens = toks(&["ab", "cd", "ef", "g"]);
    assert_eq!(
        pack_lines(&tokens, 3, widths(vec![5, 7, 5])),
        Some(toks(&["ab cd", "ef g"]))
    );
    assert_eq!(pack_lines(&tokens, 3, widths(vec![2, 2, 2])), None);
    assert_eq!(
        pack_lines(&tokens, 4, widths(vec![2, 2, 2, 2])),
        Some(toks(&["ab", "cd", "ef", "g"]))
    );
    assert_eq!(pack_lines(&tokens, 1, widths(vec![100])), Some(toks(&["ab cd ef g"])));
}

#[test]
fn a_line_that_takes_no_token_fails() {
    let tokens = toks(&["abc", "d"]);
    assert_eq!(pack_lines(&tokens, 2, widths(vec![5, 0])), Some(toks(&["abc d"])));
    assert_eq!(pack_lines(&tokens, 2, widths(vec![2, 9])), None);
    assert_eq!(pack_lines(&tokens, 2, widths(vec![3, 0])), None);
}

#[test]
fn no_tokens_need_no_lines() {
    assert_eq!(pack_lines(&Vec::new(), 0, widths(vec![])), Some(Vec::new()));
    assert_eq!(pack_lines(&Vec::new(), 3, widths(vec![1, 1, 1])), Some(Vec::new()));
    assert_eq!(pack_lines(&toks(&["a"]), 0, widths(vec![])), None);
}
