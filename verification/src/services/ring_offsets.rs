//! Whether the numbers of entered pressings can be read.

use vstd::prelude::*;

use crate::json::{self, Json, JsonView};
use crate::json_text::{self, read_json_list};
use crate::numbers::{self, write_u64};
use crate::services::validation::{self, validate_signed_int};
use crate::text::{self, cat2, cat4, str_trim};

verus! {

/// The complaint about a number, if it is entered and cannot be read.
pub open spec fn number_complaint(entry: JsonView, key: Seq<char>, label: Seq<char>) -> Seq<
    Seq<char>,
> {
    match json::as_text(json::field(entry, key)) {
        Some(s) => if text::trim(s).len() > 0 && validation::signed_int(text::trim(s)) is Err {
            seq![label + ": must be a valid integer"@]
        } else {
            Seq::empty()
        },
        None => Seq::empty(),
    }
}

/// How a complaint names a number of pressing `n`.
pub open spec fn ring_label(n: nat, what: Seq<char>) -> Seq<char> {
    "Ring Code #"@ + numbers::nat_text(n) + ": "@ + what
}

/// The complaints about pressing `n`.
pub open spec fn entry_complaints(entry: JsonView, n: nat) -> Seq<Seq<char>> {
    number_complaint(entry, "offset_value"@, ring_label(n, "Offset"@)) + number_complaint(
        entry,
        "offset_extra_value"@,
        ring_label(n, "Extra Offset"@),
    ) + number_complaint(entry, "sample_start"@, ring_label(n, "Sample Start"@))
}

/// The complaints about pressings.
pub open spec fn ring_complaints(entries: Seq<JsonView>) -> Seq<Seq<char>>
    decreases entries.len(),
{
    if entries.len() == 0 {
        Seq::empty()
    } else {
        ring_complaints(entries.drop_last()) + entry_complaints(entries.last(), entries.len())
    }
}

fn check_optional_signed_int(obj: &Json, key: &str, label: &str, errors: &mut Vec<String>)
    ensures
        text::texts(final(errors)@) == text::texts(old(errors)@) + number_complaint(obj@, key@, label@),
{
    let ghost before = text::texts(errors@);
    if let Some(s) = obj.field(key).as_str() {
        let t = str_trim(s);
        if !t.as_str().is_empty() && validate_signed_int(t.as_str()).is_err() {
            errors.push(cat2(label, ": must be a valid integer"));
            assert(text::texts(errors@) =~= before + seq![label@ + ": must be a valid integer"@]);
            return;
        }
    }
    assert(before + Seq::empty() =~= before);
}

fn write_label(n: u64, what: &str) -> (r: String)
    ensures
        r@ == ring_label(n as nat, what@),
{
    cat4("Ring Code #", write_u64(n).as_str(), ": ", what)
}

/// The complaints about pressings.
pub fn check_ring_offsets(entries: &Vec<Json>) -> (r: Vec<String>)
    ensures
        text::texts(r@) == ring_complaints(json::json_views(entries@)),
{
    let ghost all = json::json_views(entries@);
    let mut errors: Vec<String> = Vec::new();
    proof {
        json::lemma_json_views(entries@);
        assert(all.take(0) =~= Seq::<JsonView>::empty());
        assert(text::texts(errors@) =~= Seq::<Seq<char>>::empty());
    }
    for i in 0..entries.len()
        invariant
            all == json::json_views(entries@),
            all.len() == entries@.len(),
            forall|k: int| 0 <= k < entries@.len() ==> #[trigger] all[k] == entries@[k]@,
            text::texts(errors@) == ring_complaints(all.take(i as int)),
    {
        proof {
            assert(all.take(i + 1).drop_last() =~= all.take(i as int));
            assert(all.take(i + 1).last() == entries@[i as int]@);
        }
        let ghost before = text::texts(errors@);
        let n: u64 = (i + 1) as u64;
        let e = &entries[i];
        check_optional_signed_int(e, "offset_value", write_label(n, "Offset").as_str(), &mut errors);
        check_optional_signed_int(
            e,
            "offset_extra_value",
            write_label(n, "Extra Offset").as_str(),
            &mut errors,
        );
        check_optional_signed_int(
            e,
            "sample_start",
            write_label(n, "Sample Start").as_str(),
            &mut errors,
        );
        assert(text::texts(errors@) =~= before + entry_complaints(e@, n as nat));
    }
    assert(all.take(all.len() as int) =~= all);
    errors
}

/// The complaints about entered pressings; a text that is no list has none.
pub fn validate_ring_code_offsets(json_str: &str) -> (r: Vec<String>)
    ensures
        text::texts(r@) == (match json_text::parsed_list(json_str@) {
            Some(entries) => ring_complaints(entries),
            None => Seq::empty(),
        }),
{
    match read_json_list(json_str) {
        Some(entries) => check_ring_offsets(&entries),
        None => {
            let none: Vec<String> = Vec::new();
            assert(text::texts(none@) =~= Seq::<Seq<char>>::empty());
            none
        },
    }
}

} // verus!
