//! Words of Japanese titles whose Latin form is settled.

use vstd::prelude::*;

use crate::text::{self, str_eq, str_trim};

verus! {

/// The largest number of tokens that a phrase spans.
pub const MAX_PHRASE_TOKENS: usize = 8;

/// Titles and phrases whose Latin form is settled.
pub struct Overrides {
    pub full: Vec<(String, String)>,
    pub phrase: Vec<(String, String)>,
}

/// Texts with what is written for them.
pub open spec fn entries(v: Seq<(String, String)>) -> Seq<(Seq<char>, Seq<char>)> {
    v.map_values(|p: (String, String)| (p.0@, p.1@))
}

/// Titles and phrases whose Latin form is settled.
pub struct OverridesView {
    pub full: Seq<(Seq<char>, Seq<char>)>,
    pub phrase: Seq<(Seq<char>, Seq<char>)>,
}

impl View for Overrides {
    type V = OverridesView;

    open spec fn view(&self) -> OverridesView {
        OverridesView { full: entries(self.full@), phrase: entries(self.phrase@) }
    }
}

/// What is written for a text: the last entry tells.
pub open spec fn entry_of(v: Seq<(Seq<char>, Seq<char>)>, key: Seq<char>) -> Option<Seq<char>>
    decreases v.len(),
{
    if v.len() == 0 {
        None
    } else if v.last().0 == key {
        Some(v.last().1)
    } else {
        entry_of(v.drop_last(), key)
    }
}

fn find_entry<'a>(v: &'a Vec<(String, String)>, key: &str) -> (r: Option<&'a str>)
    ensures
        text::opt_str(r) == entry_of(entries(v@), key@),
{
    let ghost all = entries(v@);
    let mut i: usize = v.len();
    assert(all.take(all.len() as int) =~= all);
    while i > 0
        invariant
            i <= v@.len(),
            all == entries(v@),
            entry_of(all.take(i as int), key@) == entry_of(all, key@),
        decreases i,
    {
        assert(all.take(i as int).drop_last() =~= all.take(i - 1));
        assert(all.take(i as int).last() == (v@[i - 1].0@, v@[i - 1].1@));
        if str_eq(v[i - 1].0.as_str(), key) {
            return Some(v[i - 1].1.as_str());
        }
        i = i - 1;
    }
    None
}

/// The texts together.
pub open spec fn concatenated(v: Seq<Seq<char>>) -> Seq<char>
    decreases v.len(),
{
    if v.len() == 0 {
        Seq::empty()
    } else {
        concatenated(v.drop_last()) + v.last()
    }
}

fn concat_range(v: &[String], from: usize, to: usize) -> (r: String)
    requires
        from <= to <= v@.len(),
    ensures
        r@ == concatenated(text::texts(v@).subrange(from as int, to as int)),
{
    let ghost all = text::texts(v@).subrange(from as int, to as int);
    let mut out = String::new();
    let mut i: usize = from;
    assert(all.take(0) =~= Seq::<Seq<char>>::empty());
    assert(out@ =~= Seq::<char>::empty());
    while i < to
        invariant
            from <= i <= to <= v@.len(),
            all == text::texts(v@).subrange(from as int, to as int),
            out@ == concatenated(all.take(i - from)),
        decreases to - i,
    {
        assert(all.take(i + 1 - from).drop_last() =~= all.take(i - from));
        assert(all.take(i + 1 - from).last() == v@[i as int]@);
        out.append(v[i].as_str());
        i = i + 1;
    }
    assert(all.take(to - from) =~= all);
    out
}

/// The longest phrase of at most `k` tokens from a place on: how many tokens it spans,
/// and what is written for it.
pub open spec fn longest_phrase(
    v: Seq<(Seq<char>, Seq<char>)>,
    surfaces: Seq<Seq<char>>,
    start: int,
    k: int,
) -> Option<(int, Seq<char>)>
    decreases k,
{
    if k <= 0 {
        None
    } else {
        match entry_of(v, concatenated(surfaces.subrange(start, start + k))) {
            Some(t) => Some((k, t)),
            None => longest_phrase(v, surfaces, start, k - 1),
        }
    }
}

/// The largest number of tokens that a phrase spans from a place on.
pub open spec fn phrase_limit(surfaces: Seq<Seq<char>>, start: int) -> int {
    if surfaces.len() - start < MAX_PHRASE_TOKENS {
        surfaces.len() - start
    } else {
        MAX_PHRASE_TOKENS as int
    }
}

/// The longest phrase from a place on.
pub open spec fn phrase_at(o: OverridesView, surfaces: Seq<Seq<char>>, start: int) -> Option<
    (int, Seq<char>),
> {
    longest_phrase(o.phrase, surfaces, start, phrase_limit(surfaces, start))
}

impl Overrides {
    /// The settled titles and phrases.
    pub fn seed() -> (r: Overrides)
        ensures
            r@ == seeded(),
    {
        let full: Vec<(String, String)> = Vec::new();
        let pairs = phrase_seed();
        let mut phrase: Vec<(String, String)> = Vec::new();
        let ghost all = pair_views(pairs@);
        assert(entries(phrase@) =~= all.take(0));
        for i in 0..pairs.len()
            invariant
                all == pair_views(pairs@),
                entries(phrase@) == all.take(i as int),
        {
            let ghost before = phrase@;
            let p = (String::from_str(pairs[i].0), String::from_str(pairs[i].1));
            phrase.push(p);
            assert(all[i as int] == (p.0@, p.1@));
            assert(entries(phrase@) =~= entries(before).push((p.0@, p.1@)));
            assert(all.take(i + 1) =~= all.take(i as int).push(all[i as int]));
        }
        assert(all.take(all.len() as int) =~= all);
        assert(entries(full@) =~= Seq::<(Seq<char>, Seq<char>)>::empty());
        Overrides { full, phrase }
    }

    /// What is written for a whole title.
    pub fn full_lookup(&self, input: &str) -> (r: Option<&str>)
        ensures
            text::opt_str(r) == entry_of(self@.full, text::trim(input@)),
    {
        find_entry(&self.full, str_trim(input).as_str())
    }

    /// The longest phrase from a place on: how many tokens it spans, and what is written
    /// for it.
    pub fn phrase_match(&self, surfaces: &[String], start: usize) -> (r: Option<(usize, &str)>)
        requires
            start <= surfaces@.len(),
        ensures
            match r {
                Some(p) => phrase_at(self@, text::texts(surfaces@), start as int) == Some(
                    (p.0 as int, p.1@),
                ) && 0 < p.0 <= surfaces@.len() - start,
                None => phrase_at(self@, text::texts(surfaces@), start as int) is None,
            },
    {
        let left: usize = surfaces.len() - start;
        let mut k: usize = if left < MAX_PHRASE_TOKENS {
            left
        } else {
            MAX_PHRASE_TOKENS
        };
        while k > 0
            invariant
                k <= surfaces@.len() - start,
                start <= surfaces@.len(),
                surfaces@.len() <= usize::MAX,
                phrase_at(self@, text::texts(surfaces@), start as int) == longest_phrase(
                    self@.phrase,
                    text::texts(surfaces@),
                    start as int,
                    k as int,
                ),
            decreases k,
        {
            let candidate = concat_range(surfaces, start, start + k);
            if let Some(v) = find_entry(&self.phrase, candidate.as_str()) {
                return Some((k, v));
            }
            k = k - 1;
        }
        None
    }
}

/// Texts with what is written for them.
pub open spec fn pair_views(v: Seq<(&'static str, &'static str)>) -> Seq<(Seq<char>, Seq<char>)> {
    v.map_values(|p: (&'static str, &'static str)| (p.0@, p.1@))
}

/// The settled titles and phrases: no title as a whole, and these phrases.
pub open spec fn seeded() -> OverridesView {
    OverridesView { full: Seq::empty(), phrase: seed_phrases() }
}

/// The settled phrases.
pub open spec fn seed_phrases() -> Seq<(Seq<char>, Seq<char>)> {
    seq![
        ("ファミコン"@, "Famicom"@),
        ("ラーメン"@, "Ramen"@),
        ("ファミ通"@, "Famitsu"@),
        ("悪魔城"@, "Akumajou"@),
        ("シリーズ"@, "Series"@),
        ("サウンドトラック"@, "Soundtrack"@),
        ("サントラ"@, "Soundtrack"@),
        ("オリジナル"@, "Original"@),
        ("ゲーム"@, "Game"@),
        ("コレクション"@, "Collection"@),
        ("サウンド"@, "Sound"@),
        ("スペシャル"@, "Special"@),
        ("ミュージック"@, "Music"@),
        ("ワールド"@, "World"@),
        ("ポータブル"@, "Portable"@),
        ("スーパー"@, "Super"@),
        ("キング"@, "King"@),
        ("アーケード"@, "Arcade"@),
        ("テイルズ"@, "Tales"@),
        ("オンライン"@, "Online"@),
        ("デジタル"@, "Digital"@),
        ("ウォーズ"@, "Wars"@),
        ("スター"@, "Star"@),
        ("コール"@, "Call"@),
        ("デッド"@, "Dead"@),
        ("ベスト"@, "Best"@),
        ("オブ"@, "of"@),
        ("ザ"@, "the"@),
        ("アンド"@, "and"@),
        ("プレイステーション"@, "PlayStation"@),
        ("マイクロソフト"@, "Microsoft"@),
        ("限定版"@, "Genteiban"@),
        ("錬金術士"@, "Renkinjutsushi"@),
        ("大戦略"@, "Daisenryaku"@),
        ("大作戦"@, "Daisakusen"@),
        ("大冒険"@, "Daibouken"@),
        ("必勝法"@, "Hisshouhou"@),
        ("王子様"@, "Oujisama"@),
        ("完全版"@, "Kanzenban"@),
        ("体験版"@, "Taikenban"@),
        ("大航海"@, "Daikoukai"@),
        ("奇譚"@, "Kitan"@),
        ("将伝"@, "Shouden"@),
        ("猛将"@, "Moushou"@),
        ("決定版"@, "Ketteiban"@),
        ("大全集"@, "Daizenshuu"@),
        ("山佐"@, "Yamasa"@),
        ("鬼武者"@, "Onimusha"@),
        ("異聞録"@, "Ibunroku"@),
        ("事件簿"@, "Jikenbo"@),
        ("錬金術師"@, "Renkinjutsushi"@),
        ("疾風伝"@, "Shippuuden"@),
        ("魔人"@, "Majin"@),
        ("名探偵"@, "Meitantei"@),
        ("神伝"@, "Shinden"@),
        ("機神"@, "Kishin"@),
        ("第二"@, "Daini"@),
        ("恋姫"@, "Koihime"@),
        ("大乱闘"@, "Dairantou"@),
        ("戦極"@, "Sengoku"@),
        ("豪華版"@, "Goukaban"@),
        ("原画集"@, "Gengashuu"@),
        ("総選挙"@, "Sousenkyo"@),
        ("虫姫"@, "Mushihime"@),
        ("魔装"@, "Masou"@),
        ("ファイナルファンタジー"@, "Final Fantasy"@),
        ("ドラマ"@, "Drama"@),
        ("ガンダム"@, "Gundam"@),
        ("サクラ"@, "Sakura"@),
        ("プロモーション"@, "Promotion"@),
        ("イース"@, "Ys"@),
        ("アトリエ"@, "Atelier"@),
        ("メモリアル"@, "Memorial"@),
        ("パワフルプロ"@, "Powerful Pro"@),
        ("ウイニングポスト"@, "Winning Post"@),
        ("ウイニングイレブン"@, "Winning Eleven"@),
        ("プリンセス"@, "Princess"@),
        ("ドラキュラ"@, "Dracula"@),
        ("ファンタシースターオンライン"@, "Phantasy Star Online"@),
        ("ソニック"@, "Sonic"@),
        ("ゼルダ"@, "Zelda"@),
        ("ロックマン"@, "Rockman"@),
        ("テニス"@, "Tennis"@),
        ("ドラゴンクエスト"@, "Dragon Quest"@),
        ("アルティメット"@, "Ultimate"@),
        ("ディアボリックラヴァーズ"@, "Diabolik Lovers"@),
        ("クイズ"@, "Quiz"@),
        ("デモ"@, "Demo"@),
        ("ダンジョン"@, "Dungeon"@),
        ("アンジェリーク"@, "Angelique"@),
        ("エヴァンゲリオン"@, "Evangelion"@),
        ("パチスロ"@, "Pachi-Slot"@),
        ("パワーアップキット"@, "Power-Up Kit"@),
    ]
}

fn phrase_seed() -> (r: Vec<(&'static str, &'static str)>)
    ensures
        pair_views(r@) == seed_phrases(),
{
    let v = vec![
        ("ファミコン", "Famicom"),
        ("ラーメン", "Ramen"),
        ("ファミ通", "Famitsu"),
        ("悪魔城", "Akumajou"),
        ("シリーズ", "Series"),
        ("サウンドトラック", "Soundtrack"),
        ("サントラ", "Soundtrack"),
        ("オリジナル", "Original"),
        ("ゲーム", "Game"),
        ("コレクション", "Collection"),
        ("サウンド", "Sound"),
        ("スペシャル", "Special"),
        ("ミュージック", "Music"),
        ("ワールド", "World"),
        ("ポータブル", "Portable"),
        ("スーパー", "Super"),
        ("キング", "King"),
        ("アーケード", "Arcade"),
        ("テイルズ", "Tales"),
        ("オンライン", "Online"),
        ("デジタル", "Digital"),
        ("ウォーズ", "Wars"),
        ("スター", "Star"),
        ("コール", "Call"),
        ("デッド", "Dead"),
        ("ベスト", "Best"),
        ("オブ", "of"),
        ("ザ", "the"),
        ("アンド", "and"),
        ("プレイステーション", "PlayStation"),
        ("マイクロソフト", "Microsoft"),
        ("限定版", "Genteiban"),
        ("錬金術士", "Renkinjutsushi"),
        ("大戦略", "Daisenryaku"),
        ("大作戦", "Daisakusen"),
        ("大冒険", "Daibouken"),
        ("必勝法", "Hisshouhou"),
        ("王子様", "Oujisama"),
        ("完全版", "Kanzenban"),
        ("体験版", "Taikenban"),
        ("大航海", "Daikoukai"),
        ("奇譚", "Kitan"),
        ("将伝", "Shouden"),
        ("猛将", "Moushou"),
        ("決定版", "Ketteiban"),
        ("大全集", "Daizenshuu"),
        ("山佐", "Yamasa"),
        ("鬼武者", "Onimusha"),
        ("異聞録", "Ibunroku"),
        ("事件簿", "Jikenbo"),
        ("錬金術師", "Renkinjutsushi"),
        ("疾風伝", "Shippuuden"),
        ("魔人", "Majin"),
        ("名探偵", "Meitantei"),
        ("神伝", "Shinden"),
        ("機神", "Kishin"),
        ("第二", "Daini"),
        ("恋姫", "Koihime"),
        ("大乱闘", "Dairantou"),
        ("戦極", "Sengoku"),
        ("豪華版", "Goukaban"),
        ("原画集", "Gengashuu"),
        ("総選挙", "Sousenkyo"),
        ("虫姫", "Mushihime"),
        ("魔装", "Masou"),
        ("ファイナルファンタジー", "Final Fantasy"),
        ("ドラマ", "Drama"),
        ("ガンダム", "Gundam"),
        ("サクラ", "Sakura"),
        ("プロモーション", "Promotion"),
        ("イース", "Ys"),
        ("アトリエ", "Atelier"),
        ("メモリアル", "Memorial"),
        ("パワフルプロ", "Powerful Pro"),
        ("ウイニングポスト", "Winning Post"),
        ("ウイニングイレブン", "Winning Eleven"),
        ("プリンセス", "Princess"),
        ("ドラキュラ", "Dracula"),
        ("ファンタシースターオンライン", "Phantasy Star Online"),
        ("ソニック", "Sonic"),
        ("ゼルダ", "Zelda"),
        ("ロックマン", "Rockman"),
        ("テニス", "Tennis"),
        ("ドラゴンクエスト", "Dragon Quest"),
        ("アルティメット", "Ultimate"),
        ("ディアボリックラヴァーズ", "Diabolik Lovers"),
        ("クイズ", "Quiz"),
        ("デモ", "Demo"),
        ("ダンジョン", "Dungeon"),
        ("アンジェリーク", "Angelique"),
        ("エヴァンゲリオン", "Evangelion"),
        ("パチスロ", "Pachi-Slot"),
        ("パワーアップキット", "Power-Up Kit"),
    ];
    assert(pair_views(v@) =~= seed_phrases());
    v
}

/// The phrase that is taken is the longest: no longer one begins at the same token.
pub proof fn law_longest_phrase_wins(
    v: Seq<(Seq<char>, Seq<char>)>,
    surfaces: Seq<Seq<char>>,
    start: int,
    k: int,
    longer: int,
)
    requires
        longest_phrase(v, surfaces, start, k) matches Some(p) && p.0 < longer <= k,
    ensures
        entry_of(v, concatenated(surfaces.subrange(start, start + longer))) is None,
    decreases k,
{
    if longer < k {
        law_longest_phrase_wins(v, surfaces, start, k - 1, longer);
    }
}

} // verus!
