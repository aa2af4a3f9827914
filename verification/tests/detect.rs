use vgindex::transliteration::detect::detect_script;
use vgindex::transliteration::output::Script;

#[test]
fn detects_japanese() {
    assert_eq!(detect_script("悪魔城ドラキュラ"), Some(Script::Japanese));
    assert_eq!(detect_script("ひらがな"), Some(Script::Japanese));
    assert_eq!(detect_script("漢字"), Some(Script::Japanese));
}

#[test]
fn latin_is_not_transliterable() {
    assert_eq!(detect_script("Dracula"), None);
    assert_eq!(detect_script("Final Fantasy VII"), None);
}
