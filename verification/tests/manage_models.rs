use ui::manage_models::{
    all_words_occur, filter_models, model_matches, normalize_for_search, provider_summary,
    set_visible,
};

#[test]
fn normalize_turns_separators_into_spaces_and_lowercases() {
    assert_eq!(normalize_for_search("Qwen-2/Mini_v2.5"), "qwen 2 mini v2 5");
    assert_eq!(normalize_for_search(""), "");
    assert_eq!(normalize_for_search("ÄÖ-Ü"), "äö ü");
}

#[test]
fn blank_query_matches_every_model() {
    assert!(model_matches("", "qwen-2"));
    assert!(model_matches("  \t", "anything"));
}

#[test]
fn every_query_word_must_occur() {
    assert!(model_matches("mixtral 8x7b", "mistral/mixtral-8x7b"));
    assert!(model_matches("8X7B mistral", "mistral/mixtral-8x7b"));
    assert!(model_matches("mixtral-8x7b", "mistral/mixtral-8x7b"));
    assert!(!model_matches("mixtral 9x", "mistral/mixtral-8x7b"));
    assert!(!model_matches("llama", "mistral/mixtral-8x7b"));
}

#[test]
fn words_match_inside_model_words() {
    assert!(model_matches("ist", "mistral/mixtral"));
    assert!(model_matches("l/m", "mistral/mixtral"));
}

#[test]
fn a_model_matches_its_own_name() {
    for name in ["mistral/mixtral-8x7b", "Llama 3.1 Instruct", "x", "gemini_2.0-flash"] {
        assert!(model_matches(name, name));
    }
}

fn pair(id: &str, name: &str) -> (String, String) {
    (id.to_string(), name.to_string())
}

fn strings(v: &[&str]) -> Vec<String> {
    v.iter().map(|s| s.to_string()).collect()
}

#[test]
fn all_words_occur_reads_normalized_text() {
    let q: Vec<char> = "8x7b mixtral".chars().collect();
    let m: Vec<char> = "mistral mixtral 8x7b".chars().collect();
    assert!(all_words_occur(&q, &m));
    let q2: Vec<char> = "mixtral 70b".chars().collect();
    assert!(!all_words_occur(&q2, &m));
    let blank: Vec<char> = "   ".chars().collect();
    assert!(all_words_occur(&blank, &m));
}

#[test]
fn filter_models_matches_id_or_name_in_order() {
    let models = vec![
        pair("qwen/qwen-2-7b", "Qwen 2 7B"),
        pair("m-001", "Mixtral 8x7B Instruct"),
        pair("llama-3-8b", "Llama 3 8B"),
        pair("m-002", "Mixtral 8x22B"),
    ];
    let r = filter_models("mixtral", &models);
    assert_eq!(r, vec![pair("m-001", "Mixtral 8x7B Instruct"), pair("m-002", "Mixtral 8x22B")]);
    let r = filter_models("LLAMA-3", &models);
    assert_eq!(r, vec![pair("llama-3-8b", "Llama 3 8B")]);
    let r = filter_models("", &models);
    assert_eq!(r, models);
    let r = filter_models("nothing-like-this", &models);
    assert!(r.is_empty());
}

#[test]
fn provider_summary_counts_visible_models() {
    let filtered = strings(&["a", "b", "c"]);
    assert_eq!(provider_summary(&filtered, &strings(&["b", "z"])), (2, 3, true));
    assert_eq!(provider_summary(&filtered, &strings(&["a", "b", "c"])), (0, 3, false));
    assert_eq!(provider_summary(&filtered, &Vec::new()), (3, 3, true));
    assert_eq!(provider_summary(&Vec::new(), &strings(&["a"])), (0, 0, false));
}

fn hidden_of<'a>(store: &'a [(String, Vec<String>)], provider: &str) -> Option<&'a Vec<String>> {
    store.iter().find(|(p, _)| p == provider).map(|(_, v)| v)
}

#[test]
fn hiding_adds_models_and_showing_removes_them() {
    let mut store: Vec<(String, Vec<String>)> = vec![("other".to_string(), strings(&["x"]))];
    set_visible(&mut store, "prov", &strings(&["a", "b"]), false);
    let mut hid = hidden_of(&store, "prov").unwrap().clone();
    hid.sort();
    assert_eq!(hid, strings(&["a", "b"]));
    assert_eq!(hidden_of(&store, "other"), Some(&strings(&["x"])));

    set_visible(&mut store, "prov", &strings(&["c"]), false);
    let mut hid = hidden_of(&store, "prov").unwrap().clone();
    hid.sort();
    assert_eq!(hid, strings(&["a", "b", "c"]));

    set_visible(&mut store, "prov", &strings(&["a", "c"]), true);
    assert_eq!(hidden_of(&store, "prov"), Some(&strings(&["b"])));

    set_visible(&mut store, "prov", &strings(&["b"]), true);
    assert_eq!(hidden_of(&store, "prov"), None);
    assert_eq!(hidden_of(&store, "other"), Some(&strings(&["x"])));
}

#[test]
fn showing_a_provider_with_nothing_hidden_changes_nothing() {
    let mut store: Vec<(String, Vec<String>)> = vec![("other".to_string(), strings(&["x"]))];
    set_visible(&mut store, "prov", &strings(&["a"]), true);
    assert_eq!(store, vec![("other".to_string(), strings(&["x"]))]);
}

#[test]
fn hiding_then_showing_restores_the_store() {
    let start: Vec<(String, Vec<String>)> = vec![
        ("other".to_string(), strings(&["x"])),
        ("prov".to_string(), strings(&["k"])),
    ];
    let mut store = start.clone();
    set_visible(&mut store, "prov", &strings(&["a", "b"]), false);
    set_visible(&mut store, "prov", &strings(&["a", "b"]), true);
    assert_eq!(hidden_of(&store, "prov"), Some(&strings(&["k"])));
    assert_eq!(hidden_of(&store, "other"), Some(&strings(&["x"])));

    let mut store = start.clone();
    set_visible(&mut store, "prov", &strings(&["k"]), true);
    set_visible(&mut store, "prov", &strings(&["k"]), false);
    assert_eq!(hidden_of(&store, "prov"), Some(&strings(&["k"])));
}
