use vgindex::transliteration::japanese::normalize::normalize;
use vgindex::transliteration::japanese::overrides::Overrides;
use vgindex::transliteration::japanese::romaji::{expand_macrons, romanize_kana};

fn r(s: &str) -> String {
    romanize_kana(s)
}

fn surfaces(words: &[&str]) -> Vec<String> {
    words.iter().map(|s| s.to_string()).collect()
}

#[test]
fn folds_fullwidth_alnum_and_space() {
    assert_eq!(normalize("２Ｄ"), "2D");
    assert_eq!(normalize("ＲＰＧ"), "RPG");
    assert_eq!(normalize("Ａ　Ｂ"), "A B");
    assert_eq!(normalize("２０２４"), "2024");
}

#[test]
fn apostrophe_and_quotes() {
    assert_eq!(normalize("d’s"), "d's");
    assert_eq!(normalize("『夢』"), "\"夢\"");
}

#[test]
fn brackets_stripped_and_middot_spaced() {
    assert_eq!(normalize("【限定】夢"), "限定夢");
    assert_eq!(normalize("「夢」島"), "夢島");
    assert_eq!(normalize("夢・島"), "夢 島");
}

#[test]
fn separator_monospace_before_becomes_colon() {
    assert_eq!(normalize("夢　－島"), "夢: 島");
    assert_eq!(normalize("夢　～島"), "夢: 島");
    assert_eq!(normalize("夢　〜島"), "夢: 島");
    // Wrapped form 　-　 : "before" wins, trailing monospace space absorbed.
    assert_eq!(normalize("夢　－　島"), "夢: 島");
}

#[test]
fn separator_without_monospace_before_becomes_space() {
    assert_eq!(normalize("夢－島"), "夢 島");
    assert_eq!(normalize("夢～島"), "夢 島");
}

#[test]
fn separator_with_trailing_monospace_is_removed() {
    assert_eq!(normalize("夢－　島"), "夢島");
    assert_eq!(normalize("夢～　島"), "夢島");
}

#[test]
fn ascii_hyphen_is_preserved() {
    assert_eq!(normalize("Spider-Man"), "Spider-Man");
}

#[test]
fn chouonpu_preserved() {
    assert_eq!(normalize("ラーメン"), "ラーメン");
}

#[test]
fn ideographic_comma_and_period() {
    assert_eq!(normalize("武将、城"), "武将,城");
    assert_eq!(normalize("終わり。"), "終わり.");
}

#[test]
fn roman_numerals_to_ascii() {
    assert_eq!(normalize("幻想水滸伝Ⅱ"), "幻想水滸伝II");
    assert_eq!(
        normalize("ファイナルファンタジーⅦ"),
        "ファイナルファンタジーVII"
    );
    assert_eq!(normalize("三國志Ⅲ"), "三國志III");
}

#[test]
fn letter_spelling_via_dot() {
    assert_eq!(normalize("雷電ディー・エックス"), "雷電DX");
    assert_eq!(normalize("エル・オー・エル"), "LOL");
    // A non-letter-name group keeps the middot -> space behavior.
    assert_eq!(normalize("ラウンド・ザ・ワールド"), "ラウンド ザ ワールド");
}

#[test]
fn matches_single_token() {
    let o = Overrides::seed();
    let s = surfaces(&["ファミコン", "ソフト"]);
    assert_eq!(o.phrase_match(&s, 0), Some((1, "Famicom")));
}

#[test]
fn matches_multi_token_compound() {
    let o = Overrides::seed();
    // 悪魔城 tokenized as 悪魔 + 城 -> 2 tokens consumed.
    let s = surfaces(&["悪魔", "城", "ドラキュラ"]);
    assert_eq!(o.phrase_match(&s, 0), Some((2, "Akumajou")));
}

#[test]
fn does_not_match_inside_a_token() {
    let o = Overrides::seed();
    // A hypothetical スター override must not fire inside モンスター; here we
    // confirm a non-seeded single token simply misses.
    let s = surfaces(&["モンスター"]);
    assert_eq!(o.phrase_match(&s, 0), None);
}

#[test]
fn basic_syllables() {
    assert_eq!(r("アクマジョウ"), "akumajou");
    assert_eq!(r("ドコデモイッショ"), "dokodemoissho");
    assert_eq!(r("チバ"), "chiba");
    assert_eq!(r("ケン"), "ken");
}

#[test]
fn palatalized_and_foreign() {
    assert_eq!(r("ドラキュラ"), "dorakyura");
    assert_eq!(r("ファミコン"), "famikon");
    assert_eq!(r("ジャンプ"), "janpu");
    assert_eq!(r("シャイン"), "shain");
}

#[test]
fn foreign_yoon_does_not_leak_raw_kana() {
    // Small ya/yu/yo after a non-i-row base: デュ -> dyu, テュ -> tyu, フュ -> fyu.
    assert_eq!(r("デューティー"), "dyuutii");
    assert_eq!(r("テューバ"), "tyuuba");
    assert_eq!(r("フュージョン"), "fyuujon");
    // No leftover katakana in any output.
    assert!(!r("デューティー").chars().any(|c| (c as u32) >= 0x3040));
}

#[test]
fn chouonpu_repeats_vowel() {
    assert_eq!(r("ガーン"), "gaan");
    assert_eq!(r("ドドーン"), "dodoon");
    assert_eq!(r("ラーメン"), "raamen");
}

#[test]
fn sokuon_gemination() {
    assert_eq!(r("モット"), "motto");
    assert_eq!(r("レッシャ"), "ressha");
    assert_eq!(r("ヨッツ"), "yottsu");
}

#[test]
fn sokuon_tch_exception() {
    assert_eq!(r("マッチャ"), "matcha");
    assert_eq!(r("ボッチ"), "botchi");
}

#[test]
fn moraic_n_apostrophe() {
    assert_eq!(r("レンアイ"), "ren'ai");
    assert_eq!(r("センヨウ"), "sen'you");
    // No apostrophe before a consonant.
    assert_eq!(r("カンジ"), "kanji");
    // Trailing n.
    assert_eq!(r("ニホン"), "nihon");
}

#[test]
fn hiragana_normalized() {
    assert_eq!(r("れっしゃ"), "ressha");
    assert_eq!(r("どこでも"), "dokodemo");
}

#[test]
fn passthrough_non_kana() {
    assert_eq!(r("２Ｄ"), "２Ｄ"); // full-width passthrough (not kana)
    assert_eq!(r("ABC"), "ABC");
}

#[test]
fn macron_expansion() {
    assert_eq!(expand_macrons("Tōkyō"), "Toukyou");
    assert_eq!(expand_macrons("Yūsha"), "Yuusha");
}

#[test]
fn longest_phrase_is_taken() {
    let o = Overrides::seed();
    let s = surfaces(&["サウンド", "トラック"]);
    assert_eq!(o.phrase_match(&s, 0), Some((2, "Soundtrack")));
    assert_eq!(o.phrase_match(&s, 2), None);
    assert_eq!(o.full_lookup("サウンド"), None);
}

#[test]
fn stray_small_signs_are_read() {
    assert_eq!(r("ャ"), "ya");
    assert_eq!(r("ァ"), "a");
    assert_eq!(r("ヴァ"), "va");
    assert_eq!(r("チェ"), "che");
    assert_eq!(r("ッ"), "");
    assert_eq!(r("ー"), "");
    assert_eq!(romanize_kana("れんあい"), romanize_kana("レンアイ"));
}
