use ui::fallback::{cjk_fallback_families, contains_cjk, is_cjk, is_cjk_fallback_family};

#[test]
fn detects_korean() {
    assert!(contains_cjk("안녕하세요!"));
    assert!("안".chars().all(is_cjk));
}

#[test]
fn detects_japanese() {
    assert!(contains_cjk("こんにちは"));
    assert!(contains_cjk("カタカナ"));
    assert!(contains_cjk("漢字"));
}

#[test]
fn detects_chinese() {
    assert!(contains_cjk("你好"));
}

#[test]
fn not_cjk_for_latin() {
    assert!(!contains_cjk("Hello World!"));
    assert!(!contains_cjk("Anime Ace 123"));
}

#[test]
fn mixed_is_cjk() {
    assert!(contains_cjk("Hello 안녕"));
}

#[test]
fn empty_text_is_not_cjk() {
    assert!(!contains_cjk(""));
}

#[test]
fn cjk_block_edges() {
    assert!(is_cjk('\u{1100}'));
    assert!(is_cjk('\u{11FF}'));
    assert!(!is_cjk('\u{1200}'));
    assert!(is_cjk('\u{AC00}'));
    assert!(is_cjk('\u{D7FF}'));
    assert!(!is_cjk('\u{E000}'));
    assert!(is_cjk('\u{20000}'));
    assert!(is_cjk('\u{2FA1F}'));
    assert!(!is_cjk('\u{2FA20}'));
    assert!(is_cjk('\u{FF01}'));
    assert!(!is_cjk('A'));
}

#[test]
fn fallback_family_match_ignores_ascii_case() {
    assert!(is_cjk_fallback_family("Malgun Gothic"));
    assert!(is_cjk_fallback_family("malgun gothic"));
    assert!(is_cjk_fallback_family("NOTO SANS CJK KR"));
    assert!(!is_cjk_fallback_family("Malgun"));
    assert!(!is_cjk_fallback_family("Anime Ace"));
    assert!(!is_cjk_fallback_family(""));
}

#[test]
fn fallback_family_list() {
    let families = cjk_fallback_families();
    assert_eq!(families.len(), 25);
    assert_eq!(families[0], "Batang");
    assert_eq!(families[24], "Noto Sans CJK");
    assert!(families.iter().all(|f| is_cjk_fallback_family(f)));
}
