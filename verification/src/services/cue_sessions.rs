//! What the tracks of a cuesheet tell about the disc.

use vstd::prelude::*;

use crate::services::validation::{self, parse_cue_track_line};
use crate::text::{
    self, chars_are, chars_lines, chars_of, chars_start_with, chars_trim, chars_upper, str_eq,
};

verus! {

/// What has been read of a cuesheet's tracks.
#[derive(Clone, Copy, Debug)]
pub struct Sessions {
    /// A session after the first has begun.
    pub later: bool,
    /// The first session has an audio track.
    pub first_audio: bool,
    /// The first session has a data track.
    pub first_data: bool,
    /// A later session has an audio track.
    pub later_audio: bool,
    /// A later session has a data track.
    pub later_data: bool,
}

/// A line of a cuesheet as it is read: trimmed and in capitals.
pub open spec fn cue_text(line: Seq<char>) -> Seq<char> {
    text::upper_text(text::trim(line))
}

/// What has been read with one more line.
pub open spec fn session_line(s: Sessions, line: Seq<char>) -> Sessions {
    let l = cue_text(line);
    if text::starts_with(l, "REM SESSION "@) {
        Sessions { later: text::trim(l.skip("REM SESSION "@.len() as int)) != "01"@, ..s }
    } else {
        match validation::track_line(l) {
            None => s,
            Some(t) => if t.1 == "AUDIO"@ {
                if s.later {
                    Sessions { later_audio: true, ..s }
                } else {
                    Sessions { first_audio: true, ..s }
                }
            } else {
                if s.later {
                    Sessions { later_data: true, ..s }
                } else {
                    Sessions { first_data: true, ..s }
                }
            },
        }
    }
}

/// What the lines of a cuesheet tell.
pub open spec fn sessions(ls: Seq<Seq<char>>) -> Sessions
    decreases ls.len(),
{
    if ls.len() == 0 {
        Sessions {
            later: false,
            first_audio: false,
            first_data: false,
            later_audio: false,
            later_data: false,
        }
    } else {
        session_line(sessions(ls.drop_last()), ls.last())
    }
}

/// A disc with a first session of audio tracks only and data in a later session.
pub open spec fn is_enhanced(text: Seq<char>) -> bool {
    let s = sessions(text::lines(text));
    s.first_audio && !s.first_data && s.later_data
}

/// A disc with audio tracks only.
pub open spec fn is_audio_only(text: Seq<char>) -> bool {
    let s = sessions(text::lines(text));
    (s.first_audio || s.later_audio) && !s.first_data && !s.later_data
}

fn read_line(s: Sessions, line: &[char]) -> (r: Sessions)
    ensures
        r == session_line(s, line@),
{
    let l = chars_upper(chars_trim(line));
    let word = chars_of("REM SESSION ");
    let mut r = s;
    if chars_start_with(&l, "REM SESSION ") {
        let n: usize = word.len();
        let rest = &l[n..l.len()];
        assert(rest@ =~= l@.skip(n as int));
        r.later = !chars_are(chars_trim(rest), "01");
        return r;
    }
    match parse_cue_track_line(&l) {
        None => {},
        Some(t) => {
            let audio = str_eq(t.1.as_str(), "AUDIO");
            if audio {
                if s.later {
                    r.later_audio = true;
                } else {
                    r.first_audio = true;
                }
            } else {
                if s.later {
                    r.later_data = true;
                } else {
                    r.first_data = true;
                }
            }
        },
    }
    r
}

fn read_sessions(text: &str) -> (r: Sessions)
    ensures
        r == sessions(text::lines(text@)),
{
    let chars = chars_of(text);
    let ls = chars_lines(&chars);
    let ghost all = text::slices(ls@);
    let mut s = Sessions {
        later: false,
        first_audio: false,
        first_data: false,
        later_audio: false,
        later_data: false,
    };
    assert(all.take(0) =~= Seq::<Seq<char>>::empty());
    for i in 0..ls.len()
        invariant
            all == text::slices(ls@),
            s == sessions(all.take(i as int)),
    {
        proof {
            assert(all.take(i + 1).drop_last() =~= all.take(i as int));
            assert(all.take(i + 1).last() == ls@[i as int]@);
        }
        s = read_line(s, ls[i]);
    }
    assert(all.take(all.len() as int) =~= all);
    s
}

/// Whether a cuesheet is that of a disc with audio tracks and data in a later session.
pub fn cuesheet_is_enhanced_cd(text: &str) -> (r: bool)
    ensures
        r == is_enhanced(text@),
{
    let s = read_sessions(text);
    s.first_audio && !s.first_data && s.later_data
}

/// Whether a cuesheet is that of a disc with audio tracks only.
pub fn cuesheet_has_only_audio_tracks(text: &str) -> (r: bool)
    ensures
        r == is_audio_only(text@),
{
    let s = read_sessions(text);
    (s.first_audio || s.later_audio) && !s.first_data && !s.later_data
}

/// No cuesheet is that of an enhanced disc and of a disc with audio tracks only.
pub proof fn law_enhanced_is_not_audio_only(text: Seq<char>)
    ensures
        !(is_enhanced(text) && is_audio_only(text)),
{
}

} // verus!
