use vgindex::transliteration::chinese::ChineseTransliterator;
use vgindex::transliteration::output::{Script, Transliterator};

fn tr(s: &str) -> String {
    ChineseTransliterator.transliterate(s).unwrap().text
}

#[test]
fn pinyin_without_tone_marks() {
    assert_eq!(tr("中国"), "Zhong Guo");
    assert_eq!(tr("天地之門"), "Tian Di Zhi Men");
    assert_eq!(tr("看我龍顯神威"), "Kan Wo Long Xian Shen Wei");
}

#[test]
fn keeps_existing_latin_and_numbers() {
    assert_eq!(tr("三國志 2"), "San Guo Zhi 2");
    assert_eq!(tr("Game 2000 中文版"), "Game 2000 Zhong Wen Ban");
}

#[test]
fn normalizes_common_fullwidth_punctuation() {
    assert_eq!(tr("古劍奇譚：貳"), "Gu Jian Qi Tan: Er");
    assert_eq!(tr("汪達與巨像（中文版）"), "Wang Da Yu Ju Xiang (Zhong Wen Ban)");
}

#[test]
fn unknown_han_characters_stay_and_are_noted() {
    let known = ChineseTransliterator::new().transliterate("中").unwrap();
    assert!(known.notes.is_empty());
    assert_eq!(known.script, Script::Chinese);
    let unknown = ChineseTransliterator::new().transliterate("中\u{3400}\u{2A6DF}").unwrap();
    assert!(unknown.text.starts_with("Zhong "));
    assert_eq!(
        unknown.notes,
        vec!["Some Han characters were not found in the pinyin dictionary.".to_string()]
    );
}

#[test]
fn spaces_are_single() {
    assert_eq!(tr("  中   国  "), "Zhong Guo");
    assert_eq!(tr("中、国"), "Zhong, Guo");
    assert_eq!(tr("A中"), "A Zhong");
    assert_eq!(tr("中&国"), "Zhong & Guo");
}
