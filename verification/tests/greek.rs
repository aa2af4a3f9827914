use vgindex::transliteration::greek::GreekTransliterator;
use vgindex::transliteration::output::{Script, Transliterator};

fn tr(s: &str) -> String {
    GreekTransliterator.transliterate(s).unwrap().text
}

#[test]
fn single_letter_symbols() {
    assert_eq!(tr("α"), "Alpha");
    assert_eq!(tr("Σ"), "Sigma");
    assert_eq!(tr("Super Robot Taisen α"), "Super Robot Taisen Alpha");
    assert_eq!(tr("Ninja Gaiden Σ"), "Ninja Gaiden Sigma");
}

#[test]
fn spacing_inserted_around_names() {
    assert_eq!(tr("30Φ"), "30 Phi");
    assert_eq!(tr("αβ"), "Alpha Beta");
}

#[test]
fn full_greek_word_expands_each_letter() {
    // Accepted tradeoff: real Greek words become letter sequences.
    assert_eq!(tr("ΓΑΛΕΟΖ"), "Gamma Alpha Lambda Epsilon Omicron Zeta");
}

#[test]
fn passthrough() {
    assert_eq!(tr("Final Fantasy"), "Final Fantasy");
}

#[test]
fn names_stand_apart_from_words() {
    assert_eq!(tr("α2"), "Alpha 2");
    assert_eq!(tr("ώ!"), "Omega!");
    assert_eq!(GreekTransliterator::new().script(), Script::Greek);
}
