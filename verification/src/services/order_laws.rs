//! In which order things stand.

use vstd::prelude::*;

use crate::clock::{self, Moment};
use crate::error::ErrorView;
use crate::models::System;
use crate::numbers;
use crate::order::{self, KeyView};
use crate::services::approval;
use crate::services::archive_service::{self, DatfileEntry, GameView, RomView};
use crate::services::database_export_service::{self, ExportFile};
use crate::services::dump_text;
use crate::services::hex_dump;
use crate::services::news_service::{self, NewsView};
use crate::text;
use crate::unicode;

verus! {

// ── Texts and keys ─────────────────────────────────────────────────────────

/// Texts are in the order of the first characters in which they differ, and the beginning of
/// a text comes before it.
pub proof fn law_order_of_texts(p: Seq<char>, a: char, b: char, s: Seq<char>, t: Seq<char>)
    ensures
        a < b ==> order::text_less(p + seq![a] + s, p + seq![b] + t),
        a < b ==> !order::text_less(p + seq![b] + t, p + seq![a] + s),
        order::text_less(p, p + seq![a] + s),
        !order::text_less(p + seq![a] + s, p),
    decreases p.len(),
{
    let x = p + seq![a] + s;
    let y = p + seq![b] + t;
    if p.len() == 0 {
        assert(x[0] == a && y[0] == b);
    } else {
        law_order_of_texts(p.drop_first(), a, b, s, t);
        assert(x.drop_first() =~= p.drop_first() + seq![a] + s);
        assert(y.drop_first() =~= p.drop_first() + seq![b] + t);
        assert(x[0] == p[0] && y[0] == p[0]);
    }
}

/// Keys are in the order of their ranks; among equal ranks of their first text; among equal
/// texts of their numbers.
pub proof fn law_order_of_keys(a: KeyView, b: KeyView)
    ensures
        a.rank < b.rank ==> order::key_less(a, b) && !order::key_less(b, a),
        a.rank == b.rank && a.texts.len() > 0 && b.texts.len() > 0 && order::text_less(
            a.texts[0],
            b.texts[0],
        ) ==> order::key_less(a, b),
        a.rank == b.rank && a.texts == b.texts ==> (order::key_less(a, b) <==> a.last < b.last),
{
    if a.texts.len() > 0 && b.texts.len() > 0 {
        order::lemma_text_less_irreflexive(a.texts[0]);
    }
}

// ── Archives ───────────────────────────────────────────────────────────────

proof fn lemma_single_key(x: Seq<char>, y: Seq<char>)
    requires
        order::text_less(x, y),
    ensures
        order::texts_less(seq![x], seq![y]),
        seq![x] != seq![y],
{
    order::lemma_text_less_irreflexive(x);
    assert(seq![x][0] == x && seq![y][0] == y);
}

/// The discs of a DAT are in the order of their names, whatever the case of the letters.
pub proof fn law_discs_are_in_order(entries: Seq<DatfileEntry>, sys: System, i: int, j: int)
    requires
        0 <= i < j < entries.len(),
    ensures
        archive_service::sorted_games(entries, sys).len() == entries.len(),
        !order::text_less(
            unicode::lowercase(archive_service::sorted_games(entries, sys)[j].name),
            unicode::lowercase(archive_service::sorted_games(entries, sys)[i].name),
        ),
{
    let gs = entries.map_values(|e: DatfileEntry| archive_service::game_of(e, sys));
    let ks = gs.map_values(|g: GameView| archive_service::game_key(g));
    order::law_stable_order(ks);
    let o = order::stable_order(ks);
    let a = gs[o[i]];
    let b = gs[o[j]];
    assert(archive_service::sorted_games(entries, sys)[i] == a);
    assert(archive_service::sorted_games(entries, sys)[j] == b);
    assert(ks[o[i]] == archive_service::game_key(a));
    assert(ks[o[j]] == archive_service::game_key(b));
    if order::text_less(unicode::lowercase(b.name), unicode::lowercase(a.name)) {
        lemma_single_key(unicode::lowercase(b.name), unicode::lowercase(a.name));
        assert(order::key_less(archive_service::game_key(b), archive_service::game_key(a)));
        order::lemma_key_order(ks[o[i]], ks[o[j]], ks[o[i]]);
    }
}

/// The files of a disc in a DAT are, behind the cuesheet, in the order of their names.
pub proof fn law_files_are_in_order(v: Seq<RomView>, i: int, j: int)
    requires
        0 <= i < j < v.len(),
        archive_service::sorted_roms(v)[i].is_cue == archive_service::sorted_roms(v)[j].is_cue,
    ensures
        archive_service::sorted_roms(v).len() == v.len(),
        !order::text_less(unicode::lowercase(archive_service::sorted_roms(v)[j].name), unicode::lowercase(archive_service::sorted_roms(v)[i].name)),
{
    let ks = v.map_values(|r: RomView| archive_service::rom_key(r));
    order::law_stable_order(ks);
    let o = order::stable_order(ks);
    let a = v[o[i]];
    let b = v[o[j]];
    assert(archive_service::sorted_roms(v)[i] == a);
    assert(archive_service::sorted_roms(v)[j] == b);
    assert(ks[o[i]] == archive_service::rom_key(a));
    assert(ks[o[j]] == archive_service::rom_key(b));
    if order::text_less(unicode::lowercase(b.name), unicode::lowercase(a.name)) {
        lemma_single_key(unicode::lowercase(b.name), unicode::lowercase(a.name));
        assert(order::key_less(archive_service::rom_key(b), archive_service::rom_key(a)));
        order::lemma_key_order(ks[o[i]], ks[o[j]], ks[o[i]]);
    }
}

/// Archives of different contents or different sizes are called differently.
pub proof fn law_archives_have_their_titles(sys: System, what: Seq<char>, a: nat, b: nat, now: int)
    ensures
        archive_service::archive_title(sys, what, a, now) == archive_service::archive_title(sys, what, b, now) ==> a == b,
        text::starts_with(archive_service::archive_title(sys, what, a, now), archive_service::archive_system_name(sys)),
        text::ends_with(archive_service::archive_title(sys, what, a, now), ")"@),
{
    let front = archive_service::archive_system_name(sys) + " - "@ + what + " ("@;
    let back = ") ("@ + clock::time_text(now, crate::clock::ARCHIVE_STAMP@) + ")"@;
    let x = archive_service::archive_title(sys, what, a, now);
    let y = archive_service::archive_title(sys, what, b, now);
    assert(x =~= front + numbers::nat_text(a) + back);
    assert(y =~= front + numbers::nat_text(b) + back);
    numbers::law_nat_text_reads_back(a);
    numbers::law_nat_text_reads_back(b);
    if x == y {
        let p = numbers::nat_text(a);
        let q = numbers::nat_text(b);
        assert(p.len() == q.len());
        assert forall|i: int| 0 <= i < p.len() implies #[trigger] p[i] == q[i] by {
            assert(x[front.len() + i] == p[i]);
            assert(y[front.len() + i] == q[i]);
        }
        assert(p =~= q);
    }
    let n = archive_service::archive_system_name(sys);
    assert(x.take(n.len() as int) =~= n);
    assert(x.skip(x.len() - ")"@.len()) =~= ")"@);
}

// ── News and exports ───────────────────────────────────────────────────────

/// The news stand with the newest first, those without a time last.
pub proof fn law_newest_news_come_first(s: Seq<NewsView>, i: int, j: int)
    requires
        0 <= i < j < news_service::front_page(s).len(),
    ensures
        news_service::front_page(s)[j].published_at matches Some(b) ==> (news_service::front_page(s)[i].published_at matches Some(
            a,
        ) && a.seconds >= b.seconds),
        news_service::front_page(s).len() <= 5,
{
    news_service::law_news_are_in_order(s);
    let o = news_service::front_page(s);
    assert(!news_service::news_before(o[j], o[i]));
}

/// No export was made later than the latest.
pub proof fn law_no_export_is_later(files: Seq<ExportFile>, i: int)
    requires
        0 <= i < files.len(),
        database_export_service::export_moment(files[i].filename@) is Some,
    ensures
        database_export_service::latest(files) matches Some(k) && 0 <= k < files.len() && (database_export_service::export_moment(files[k].filename@)
            matches Some(t) && t.seconds >= (database_export_service::export_moment(files[i].filename@)->0).seconds),
{
    database_export_service::law_latest_is_last(files, i);
    lemma_latest_is_export(files);
}

proof fn lemma_latest_is_export(files: Seq<ExportFile>)
    ensures
        database_export_service::latest(files) matches Some(k) ==> 0 <= k < files.len() && database_export_service::export_moment(files[k].filename@)
            is Some,
    decreases files.len(),
{
    if files.len() > 0 {
        lemma_latest_is_export(files.drop_last());
        if let Some(k) = database_export_service::latest(files.drop_last()) {
            assert(files.drop_last()[k] == files[k]);
        }
    }
}

/// The day and the hour of a moment are those in which its seconds lie.
pub proof fn law_days_and_hours(t: Moment)
    ensures
        clock::day_of(t) * 86400 <= t.seconds < (clock::day_of(t) + 1) * 86400,
        0 <= clock::hour_of(t) < 24,
        clock::day_of(t) * 86400 + clock::hour_of(t) * 3600 <= t.seconds < clock::day_of(t) * 86400 + (clock::hour_of(t) + 1)
            * 3600,
{
    let s = t.seconds as int;
    let r = s % 86400;
    assert(s == 86400 * (s / 86400) + r && 0 <= r < 86400);
    assert(r == 3600 * (r / 3600) + r % 3600 && 0 <= r % 3600 < 3600);
}

// ── Requests ───────────────────────────────────────────────────────────────

/// A request with a token and a fingerprint has both, in small letters; one with a token alone
/// is refused; one without a token has neither, whatever fingerprint it has.
pub proof fn law_identity_of_requests(t: Seq<char>, f: Seq<char>, other: Option<Seq<char>>)
    ensures
        text::trim(t).len() == 64 && text::all_hex(text::trim(t)) && text::trim(f).len() == 64 && text::all_hex(text::trim(f))
            ==> approval::request_identity(Some(t), Some(f)) == Ok::<
            (Option<Seq<char>>, Option<Seq<char>>),
            ErrorView,
        >((Some(text::lower_text(text::trim(t))), Some(text::lower_text(text::trim(f))))),
        text::trim(t).len() == 64 && text::all_hex(text::trim(t)) ==> approval::request_identity(Some(t), None) is Err,
        approval::request_identity(None, other) == Ok::<(Option<Seq<char>>, Option<Seq<char>>), ErrorView>(
            (None, None),
        ),
{
}

/// A comment that has text is kept as it is, but for the space around it and the way its lines
/// end; a submission is returned only with one.
pub proof fn law_comments_are_kept(c: Seq<char>)
    ensures
        text::trim(text::unix_newlines(c)).len() > 0 ==> approval::comment_field(Some(c)) == Some(text::trim(text::unix_newlines(c)))
            && approval::draft_comment(c) == Ok::<Seq<char>, ErrorView>(text::trim(text::unix_newlines(c))),
        text::trim(text::unix_newlines(c)).len() == 0 ==> approval::comment_field(Some(c)) is None && approval::draft_comment(c)
            is Err,
{
}

// ── Bytes ──────────────────────────────────────────────────────────────────

/// The digits of bytes are in the order of the bytes: the higher half first.
pub proof fn law_digits_of_bytes(a: u8, b: u8)
    requires
        a < b,
    ensures
        order::text_less(dump_text::byte_text(a, true), dump_text::byte_text(b, true)),
        order::text_less(dump_text::byte_text(a, false), dump_text::byte_text(b, false)),
{
    lemma_digit_order(a as int / 16, b as int / 16);
    lemma_digit_order(a as int % 16, b as int % 16);
    reveal_with_fuel(order::text_less, 3);
    let x = dump_text::byte_text(a, true);
    let y = dump_text::byte_text(b, true);
    let u = dump_text::byte_text(a, false);
    let v = dump_text::byte_text(b, false);
    assert(x.drop_first() =~= seq![x[1]] && y.drop_first() =~= seq![y[1]]);
    assert(u.drop_first() =~= seq![u[1]] && v.drop_first() =~= seq![v[1]]);
}

proof fn lemma_digit_order(d: int, e: int)
    requires
        0 <= d < 16,
        0 <= e < 16,
    ensures
        d < e ==> dump_text::hex_digit(d, true) < dump_text::hex_digit(e, true),
        d < e ==> dump_text::hex_digit(d, false) < dump_text::hex_digit(e, false),
{
}

proof fn lemma_raw_line(line: Seq<char>, row: nat)
    requires
        text::all_hex(line),
    ensures
        hex_dump::raw_line(line, row) == Ok::<Seq<char>, Seq<char>>(line),
    decreases line.len(),
{
    if line.len() == 0 {
        assert(line =~= Seq::<char>::empty());
    } else {
        let front = line.drop_last();
        assert forall|i: int| 0 <= i < front.len() implies text::is_hex(#[trigger] front[i]) by {
            assert(front[i] == line[i]);
        }
        lemma_raw_line(front, row);
        assert(text::is_hex(line[line.len() - 1]));
        assert(front.push(line.last()) =~= line);
    }
}

/// Bytes that are entered as digits alone are read back.
pub proof fn law_entered_digits_read_back(data: Seq<u8>)
    ensures
        hex_dump::binary_input(dump_text::hex_text(data)) == Ok::<Seq<u8>, Seq<char>>(data),
{
    dump_text::law_hex_text_reads_back(data);
    let t = dump_text::hex_text(data);
    if data.len() == 0 {
        assert(t.len() == 0);
        assert(text::trim(t).len() == 0);
        assert(data =~= Seq::<u8>::empty());
    } else {
        assert(text::is_hex(t[0]) && text::is_hex(t[t.len() - 1]));
        let k = text::lemma_trim_start_skip(t);
        assert(k == 0);
        assert(t.skip(0) =~= t);
        let m = text::lemma_trim_end_take(t);
        if m < t.len() {
            assert(text::is_space(t[t.len() - 1]));
        }
        assert(t.take(m) =~= t);
        text::lemma_index_from(t, '\n', 0);
        let i = text::index_from(t, '\n', 0);
        if i < t.len() {
            assert(text::is_hex(t[i]));
        }
        let ls = text::lines(t);
        assert(ls =~= seq![t]);
        if hex_dump::has_offsets(ls) {
            let n = choose|n: int| 0 <= n < ls.len() && (#[trigger] ls[n]).contains(':');
            assert(ls[n] == t);
            let c = choose|c: int| 0 <= c < t.len() && t[c] == ':';
            assert(text::is_hex(t[c]));
        }
        lemma_raw_line(t, 1);
        assert(ls.drop_first() =~= Seq::<Seq<char>>::empty());
        reveal_with_fuel(hex_dump::raw_digits, 2);
        assert(t + Seq::<char>::empty() =~= t);
    }
}

} // verus!
