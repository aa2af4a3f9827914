use vgindex::transliteration::output::{Script, Transliterator};
use vgindex::transliteration::russian::RussianTransliterator;

fn tr(s: &str) -> String {
    RussianTransliterator.transliterate(s).unwrap().text
}

#[test]
fn official_example() {
    assert_eq!(tr("Анабиоз: Сон разума"), "Anabioz: Son razuma");
}

#[test]
fn digraphs_and_special() {
    assert_eq!(tr("жз"), "zhz");
    assert_eq!(tr("щука"), "shhuka");
    assert_eq!(tr("ёж"), "yozh");
    assert_eq!(tr("Хорошо"), "Xorosho");
}

#[test]
fn tse_context_rule() {
    assert_eq!(tr("цирк"), "cirk"); // ц before и -> c
    assert_eq!(tr("цены"), "ceny"); // ц before е -> c
    assert_eq!(tr("конец"), "konecz"); // ц not before i/e/y/j -> cz
}

#[test]
fn soft_hard_signs_and_yery() {
    assert_eq!(tr("огонь"), "ogon'"); // soft sign -> apostrophe
    assert_eq!(tr("подъезд"), "pod''ezd"); // hard sign -> double apostrophe
    assert_eq!(tr("мы"), "my"); // ы -> y (mark dropped)
    assert_eq!(tr("это"), "e'to"); // э -> e'
}

#[test]
fn casing_follows_source() {
    assert_eq!(tr("Жук"), "Zhuk"); // title-case digraph
    assert_eq!(tr("ЖУК"), "ZHUK"); // all-caps digraph
    assert_eq!(tr("СССР"), "SSSR");
}

#[test]
fn latin_and_punctuation_passthrough() {
    assert_eq!(tr("Sega Mega Drive"), "Sega Mega Drive");
    assert_eq!(tr("Тетрис 2"), "Tetris 2");
}

#[test]
fn single_capitals_among_small_letters() {
    assert_eq!(tr("Щи"), "Shhi");
    assert_eq!(tr("Я"), "Ya");
    assert_eq!(tr("Эра"), "E'ra");
    assert_eq!(RussianTransliterator::new().script(), Script::Russian);
}

#[test]
fn only_russian_capitals_make_a_run() {
    assert_eq!(tr("AЖук"), "AZhuk");
    assert_eq!(tr("жЖB"), "zhZhB");
    assert_eq!(tr("ЖЖук"), "ZHZHuk");
    assert_eq!(tr("ΩЖ"), "ΩZh");
}

#[test]
fn pieces_are_written_apart() {
    for (a, b) in [("Сон ", "Разума"), ("Ж", "ук"), ("жу", "Ж"), ("конец", " Игры"), ("", "Цирк")] {
        assert_eq!(tr(&format!("{a}{b}")), tr(a) + &tr(b));
    }
    assert_ne!(tr("ци"), tr("ц") + &tr("и"));
    assert_ne!(tr("ЖУ"), tr("Ж") + &tr("У"));
}

#[test]
fn the_letter_tse_as_a_capital() {
    assert_eq!(tr("Цирк"), "Cirk");
    assert_eq!(tr("ЦЕНЫ"), "CENY");
    assert_eq!(tr("КОНЕЦ"), "KONECZ");
    assert_eq!(tr("Цвет"), "Czvet");
}
