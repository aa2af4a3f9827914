use vgindex::transliteration::japanese::overrides::Overrides;
use vgindex::transliteration::japanese::transliterator::{
    capitalize, japanese_runs, join_chunks, romanize_tokens, transliterate_with, JapaneseTransliterator,
    Token,
};
use vgindex::transliteration::output::{Script, TransliterationError};
use vgindex::transliteration::registry::{dispatch, TransliterationRegistry};

/// A token with the details of the dictionary that titles are read with.
fn token(surface: &str, pos: &str, reading: &str) -> Token {
    let mut details = vec!["*".to_string(); 9];
    details[0] = pos.to_string();
    details[7] = reading.to_string();
    Token { surface: surface.to_string(), details }
}

fn noun(surface: &str, reading: &str) -> Token {
    token(surface, "名詞", reading)
}

/// The draft of a title whose Japanese parts are read as given.
fn tr(input: &str, runs: Vec<Vec<Token>>) -> String {
    let tokens: Vec<Result<Vec<Token>, String>> = runs.into_iter().map(Ok).collect();
    assert_eq!(japanese_runs(input).len(), tokens.len());
    transliterate_with(&Overrides::seed(), input, &tokens).unwrap().text
}

#[test]
fn romanizes_basic_titles() {
    assert_eq!(
        tr(
            "どこでもいっしょ",
            vec![vec![
                noun("どこ", "ドコ"),
                token("でも", "助詞", "デモ"),
                noun("いっしょ", "イッショ"),
            ]],
        ),
        "Doko Demo Issho"
    );
    assert_eq!(tr("恋愛", vec![vec![noun("恋愛", "レンアイ")]]), "Ren'ai");
}

#[test]
fn phrase_override_spans_tokens() {
    assert_eq!(
        tr(
            "悪魔城ドラキュラ",
            vec![vec![
                noun("悪魔", "アクマ"),
                noun("城", "ジョウ"),
                noun("ドラキュラ", "ドラキュラ"),
            ]],
        ),
        "Akumajou Dracula"
    );
}

#[test]
fn official_romanization_override() {
    assert_eq!(tr("ファミコン", vec![vec![noun("ファミコン", "ファミコン")]]), "Famicom");
    assert_eq!(tr("ラーメン", vec![vec![noun("ラーメン", "ラーメン")]]), "Ramen");
}

#[test]
fn connector_overrides_and_first_letter_capitalized() {
    assert_eq!(
        tr(
            "テイルズ・オブ・ファンタジア",
            vec![
                vec![noun("テイルズ", "*")],
                vec![noun("オブ", "オブ")],
                vec![noun("ファンタジア", "ファンタジア")],
            ],
        ),
        "Tales of Fantajia"
    );
    assert_eq!(
        tr("ザ・ワールド", vec![vec![noun("ザ", "ザ")], vec![noun("ワールド", "ワールド")]]),
        "The World"
    );
}

#[test]
fn normalization_quotes_and_middot() {
    assert_eq!(tr("『夢』", vec![vec![noun("夢", "ユメ")]]), "\"Yume\"");
    assert_eq!(
        tr("夢・島", vec![vec![noun("夢", "ユメ")], vec![noun("島", "シマ")]]),
        "Yume Shima"
    );
}

#[test]
fn normalization_brackets_and_separator() {
    assert_eq!(
        tr("【限定】夢", vec![vec![noun("限定", "ゲンテイ"), noun("夢", "ユメ")]]),
        "Gentei Yume"
    );
    assert_eq!(
        tr("夢　－島", vec![vec![noun("夢", "ユメ")], vec![noun("島", "シマ")]]),
        "Yume: Shima"
    );
    assert_eq!(
        tr("夢－島", vec![vec![noun("夢", "ユメ")], vec![noun("島", "シマ")]]),
        "Yume Shima"
    );
}

#[test]
fn passthrough_latin_and_digits() {
    assert_eq!(tr("２Ｄ", vec![]), "2D");
}

#[test]
fn capitalize_helper() {
    assert_eq!(capitalize("doko"), "Doko");
    assert_eq!(capitalize("-ban"), "-ban");
    assert_eq!(capitalize(""), "");
}

#[test]
fn join_punctuation_aware() {
    assert_eq!(join_chunks(&vec!["Movie".into(), "-ban".into()]), "Movie-ban");
    assert_eq!(
        join_chunks(&vec!["Akumajou".into(), ":".into(), "Densetsu".into()]),
        "Akumajou: Densetsu"
    );
    assert_eq!(join_chunks(&vec!["\"".into(), "Yume".into(), "\"".into()]), "\"Yume\"");
}

#[test]
fn particles_are_small_and_spoken() {
    let words = romanize_tokens(
        &Overrides::seed(),
        &vec![
            noun("私", "ワタシ"),
            token("は", "助詞", "ハ"),
            noun("夢", "ユメ"),
            token("の", "助詞", "ノ"),
            token("へ", "助詞", "ヘ"),
            token("を", "助詞", "ヲ"),
            Token { surface: "アイ".to_string(), details: Vec::new() },
        ],
    );
    assert_eq!(words, vec!["Watashi", "wa", "Yume", "no", "e", "o", "Ai"]);
}

#[test]
fn an_unread_part_fails_the_title() {
    assert_eq!(
        transliterate_with(&Overrides::seed(), "夢A島", &vec![Ok(vec![]), Err("lost".to_string())]),
        Err(TransliterationError::Backend("tokenize: lost".to_string()))
    );
    assert_eq!(
        TransliterationError::Backend("x".to_string()).text(),
        "transliteration backend error: x"
    );
}

#[test]
fn registry_dispatches_japanese() {
    let (text, script) = dispatch("恋愛", None, &vec![Script::Japanese]).unwrap();
    assert_eq!(script, Script::Japanese);
    assert_eq!(tr(&text, vec![vec![noun("恋愛", "レンアイ")]]), "Ren'ai");
}

#[test]
fn empty_and_latin_are_errors() {
    let reg = TransliterationRegistry { backends: Vec::new() };
    assert_eq!(reg.transliterate("   ", None), Err(TransliterationError::EmptyInput));
    assert_eq!(reg.transliterate("Dracula", None), Err(TransliterationError::UnsupportedScript));
    assert!(!reg.supports(Script::Japanese));
    assert_eq!(reg.transliterate("夢", None), Err(TransliterationError::UnsupportedScript));
}

#[test]
fn the_dictionary_is_loaded_or_named() {
    match JapaneseTransliterator::new() {
        Ok(_) => {}
        Err(TransliterationError::Backend(m)) => assert!(m.starts_with("load ipadic: ")),
        Err(_) => unreachable!(),
    }
    match TransliterationRegistry::new() {
        Ok(reg) => assert!(reg.supports(Script::Japanese)),
        Err(e) => assert!(e.text().starts_with("transliteration backend error: load ipadic: ")),
    }
}
