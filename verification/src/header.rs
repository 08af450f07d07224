use vstd::prelude::*;

use crate::changelog::{Changes, ChangesM, Date, Release, ReleaseM, Version};
use crate::diagnostics::{Diag, DiagM, Severity};
use crate::events::{MdEvent, MdTag};
use crate::span::Span;
use codespan::FileId;

verus! {

/// An ASCII space or tab.
pub open spec fn is_space(b: u8) -> bool {
    b == 32 || b == 9
}

/// An ASCII decimal digit.
pub open spec fn is_digit(b: u8) -> bool {
    48 <= b <= 57
}

/// An ASCII upper-case letter folded to lower case; other bytes unchanged.
pub open spec fn lower(b: u8) -> u8 {
    if 65 <= b <= 90 {
        (b + 32) as u8
    } else {
        b
    }
}

/// The first position at or after `i` that holds no space or tab.
pub open spec fn skip_spaces(t: Seq<u8>, i: int) -> int
    decreases t.len() - i,
{
    if 0 <= i < t.len() && is_space(t[i]) {
        skip_spaces(t, i + 1)
    } else {
        i
    }
}

/// The first position at or after `i` that holds no decimal digit.
pub open spec fn digits_end(t: Seq<u8>, i: int) -> int
    decreases t.len() - i,
{
    if 0 <= i < t.len() && is_digit(t[i]) {
        digits_end(t, i + 1)
    } else {
        i
    }
}

/// Every byte in `[i, j)` is a decimal digit.
pub open spec fn all_digits(t: Seq<u8>, i: int, j: int) -> bool {
    forall|k: int| i <= k < j ==> is_digit(t[k])
}

/// `digits_end` stays inside the text and the bytes it ran over are digits.
pub proof fn lemma_digits_end(t: Seq<u8>, i: int)
    requires
        0 <= i <= t.len(),
    ensures
        i <= digits_end(t, i) <= t.len(),
        all_digits(t, i, digits_end(t, i)),
    decreases t.len() - i,
{
    if i < t.len() && is_digit(t[i]) {
        lemma_digits_end(t, i + 1);
    }
}

/// The numeric value of the digit run `[i, j)`, read left to right, or `None`
/// where the value would not fit in a `u64`.
pub open spec fn num_val(t: Seq<u8>, i: int, j: int) -> Option<u64>
    decreases j - i,
{
    if j <= i {
        Some(0u64)
    } else {
        match num_val(t, i, j - 1) {
            None => None,
            Some(v) => {
                let d = t[j - 1] - 48;
                if v > u64::MAX / 10 || (v == u64::MAX / 10 && d > u64::MAX % 10) {
                    None
                } else {
                    Some(((v * 10 + d) as u64))
                }
            },
        }
    }
}

/// Once a digit run has overflowed, every longer run overflows too.
pub proof fn lemma_num_val_none(t: Seq<u8>, i: int, j1: int, j2: int)
    requires
        i <= j1 <= j2,
        num_val(t, i, j1) is None,
    ensures
        num_val(t, i, j2) is None,
    decreases j2 - j1,
{
    if j1 < j2 {
        lemma_num_val_none(t, i, j1, j2 - 1);
    }
}

/// One dotted version component at `i`: its value and the position after it,
/// or `None` where no digit stands at `i` or the value overflows.
pub open spec fn component_at(t: Seq<u8>, i: int) -> Option<(u64, int)> {
    let j = digits_end(t, i);
    if j == i {
        None
    } else {
        match num_val(t, i, j) {
            None => None,
            Some(v) => Some((v, j)),
        }
    }
}

/// A `major.minor.patch` version at `i`: the version and the position after
/// it, or `None` where the text there is no version.
pub open spec fn version_at(t: Seq<u8>, i: int) -> Option<(Version, int)> {
    match component_at(t, i) {
        None => None,
        Some((major, j1)) => if j1 < t.len() && t[j1] == 46 {
            match component_at(t, j1 + 1) {
                None => None,
                Some((minor, j2)) => if j2 < t.len() && t[j2] == 46 {
                    match component_at(t, j2 + 1) {
                        None => None,
                        Some((patch, j3)) => Some((Version { major, minor, patch }, j3)),
                    }
                } else {
                    None
                },
            }
        } else {
            None
        },
    }
}

/// A `year-month-day` date at `i` (four, two and two digits), with the month
/// in `1..=12` and the day in `1..=31`: the date and the position after it, or
/// `None` where the text there is no such date.
pub open spec fn date_at(t: Seq<u8>, i: int) -> Option<(Date, int)> {
    if t.len() - i >= 10 && all_digits(t, i, i + 4) && t[i + 4] == 45 && all_digits(t, i + 5, i + 7)
        && t[i + 7] == 45 && all_digits(t, i + 8, i + 10) {
        match (num_val(t, i, i + 4), num_val(t, i + 5, i + 7), num_val(t, i + 8, i + 10)) {
            (Some(y), Some(m), Some(d)) => if y <= 9999 && 1 <= m <= 12 && 1 <= d <= 31 {
                Some((Date { year: y as u16, month: m as u8, day: d as u8 }, i + 10))
            } else {
                None
            },
            _ => None,
        }
    } else {
        None
    }
}

/// The word "unreleased" in any case at `i`, followed only by spaces.
pub open spec fn unreleased_word_at(t: Seq<u8>, i: int) -> bool {
    &&& 0 <= i
    &&& t.len() - i >= 10
    &&& lower(t[i]) == 117
    &&& lower(t[i + 1]) == 110
    &&& lower(t[i + 2]) == 114
    &&& lower(t[i + 3]) == 101
    &&& lower(t[i + 4]) == 108
    &&& lower(t[i + 5]) == 101
    &&& lower(t[i + 6]) == 97
    &&& lower(t[i + 7]) == 115
    &&& lower(t[i + 8]) == 101
    &&& lower(t[i + 9]) == 100
    &&& skip_spaces(t, i + 10) == t.len()
}

/// Which token of a heading failed to parse.
#[derive(Clone, Copy, Debug, PartialEq, Eq, Structural)]
pub enum HeaderErr {
    /// The heading text starts with neither a version nor "Unreleased".
    ExpectedVersion,
    /// The text after the version is no `year-month-day` date.
    BadDate,
    /// Text stands after the date.
    Trailing,
}

/// The message a diagnostic carries for each failing heading token.
pub open spec fn err_message(e: HeaderErr) -> Seq<char> {
    match e {
        HeaderErr::ExpectedVersion => "expected a semantic version or the word Unreleased"@,
        HeaderErr::BadDate => "expected a release date like 2020-01-02"@,
        HeaderErr::Trailing => "unexpected text after the release date"@,
    }
}

/// What one level-2 heading's inline text means: `Ok` with the optional
/// version and date, or the token that failed. The text is either the word
/// "Unreleased" in any case, or a version `major.minor.patch` (optionally in
/// square brackets), optionally followed by a dash and a `year-month-day`
/// date; spaces may surround every part.
pub open spec fn header_parse(t: Seq<u8>) -> Result<(Option<Version>, Option<Date>), HeaderErr> {
    let i0 = skip_spaces(t, 0);
    if unreleased_word_at(t, i0) {
        Ok((None, None))
    } else {
        let i1 = if i0 < t.len() && t[i0] == 91 {
            i0 + 1
        } else {
            i0
        };
        match version_at(t, i1) {
            None => Err(HeaderErr::ExpectedVersion),
            Some((ver, j0)) => {
                let j1 = if j0 < t.len() && t[j0] == 93 {
                    j0 + 1
                } else {
                    j0
                };
                let j2 = skip_spaces(t, j1);
                let j3 = if j2 < t.len() && t[j2] == 45 {
                    skip_spaces(t, j2 + 1)
                } else {
                    j2
                };
                if j3 == t.len() {
                    Ok((Some(ver), None))
                } else {
                    match date_at(t, j3) {
                        None => Err(HeaderErr::BadDate),
                        Some((date, k)) => if skip_spaces(t, k) == t.len() {
                            Ok((Some(ver), Some(date)))
                        } else {
                            Err(HeaderErr::Trailing)
                        },
                    }
                }
            },
        }
    }
}

/// Folds one ASCII upper-case letter to lower case.
pub fn lower_byte(b: u8) -> (r: u8)
    ensures
        r == lower(b),
{
    if 65 <= b && b <= 90 {
        b + 32
    } else {
        b
    }
}

/// Walks past spaces and tabs.
pub fn skip_spaces_exec(t: &Vec<u8>, i: usize) -> (j: usize)
    requires
        i <= t@.len(),
    ensures
        j as int == skip_spaces(t@, i as int),
        i <= j <= t@.len(),
{
    let mut k = i;
    while k < t.len() && (t[k] == 32 || t[k] == 9)
        invariant
            i <= k <= t@.len(),
            skip_spaces(t@, i as int) == skip_spaces(t@, k as int),
        decreases t@.len() - k,
    {
        k = k + 1;
    }
    k
}

/// Walks past decimal digits.
pub fn digits_end_exec(t: &Vec<u8>, i: usize) -> (j: usize)
    requires
        i <= t@.len(),
    ensures
        j as int == digits_end(t@, i as int),
        i <= j <= t@.len(),
{
    let mut k = i;
    while k < t.len() && 48 <= t[k] && t[k] <= 57
        invariant
            i <= k <= t@.len(),
            digits_end(t@, i as int) == digits_end(t@, k as int),
        decreases t@.len() - k,
    {
        k = k + 1;
    }
    k
}

/// Whether every byte in `[i, j)` is a decimal digit.
pub fn all_digits_exec(t: &Vec<u8>, i: usize, j: usize) -> (b: bool)
    requires
        i <= j <= t@.len(),
    ensures
        b == all_digits(t@, i as int, j as int),
{
    let mut k = i;
    while k < j
        invariant
            i <= k <= j <= t@.len(),
            forall|q: int| i <= q < k ==> is_digit(t@[q]),
        decreases j - k,
    {
        if !(48 <= t[k] && t[k] <= 57) {
            assert(!is_digit(t@[k as int]));
            return false;
        }
        k = k + 1;
    }
    true
}

/// The value of the digit run `[i, j)`, or `None` on overflow.
pub fn num_val_exec(t: &Vec<u8>, i: usize, j: usize) -> (r: Option<u64>)
    requires
        i <= j <= t@.len(),
        all_digits(t@, i as int, j as int),
    ensures
        r == num_val(t@, i as int, j as int),
{
    let mut k = i;
    let mut val: u64 = 0;
    while k < j
        invariant
            i <= k <= j <= t@.len(),
            all_digits(t@, i as int, j as int),
            Some(val) == num_val(t@, i as int, k as int),
        decreases j - k,
    {
        let d = t[k] - 48;
        if val > u64::MAX / 10 || (val == u64::MAX / 10 && d as u64 > u64::MAX % 10) {
            proof {
                lemma_num_val_none(t@, i as int, k as int + 1, j as int);
            }
            return None;
        }
        val = val * 10 + d as u64;
        k = k + 1;
    }
    Some(val)
}

/// One dotted version component at `i`.
pub fn component_at_exec(t: &Vec<u8>, i: usize) -> (r: Option<(u64, usize)>)
    requires
        i <= t@.len(),
    ensures
        component_at(t@, i as int) == (match r {
            None => None::<(u64, int)>,
            Some((v, j)) => Some((v, j as int)),
        }),
        r matches Some(p) ==> i <= p.1 <= t@.len(),
{
    let j = digits_end_exec(t, i);
    if j == i {
        return None;
    }
    proof {
        lemma_digits_end(t@, i as int);
    }
    match num_val_exec(t, i, j) {
        None => None,
        Some(v) => Some((v, j)),
    }
}

/// A `major.minor.patch` version at `i`.
pub fn version_at_exec(t: &Vec<u8>, i: usize) -> (r: Option<(Version, usize)>)
    requires
        i <= t@.len(),
    ensures
        version_at(t@, i as int) == (match r {
            None => None::<(Version, int)>,
            Some((v, j)) => Some((v, j as int)),
        }),
        r matches Some(p) ==> i <= p.1 <= t@.len(),
{
    match component_at_exec(t, i) {
        None => None,
        Some((major, j1)) => {
            if j1 < t.len() && t[j1] == 46 {
                match component_at_exec(t, j1 + 1) {
                    None => None,
                    Some((minor, j2)) => {
                        if j2 < t.len() && t[j2] == 46 {
                            match component_at_exec(t, j2 + 1) {
                                None => None,
                                Some((patch, j3)) => Some((Version { major, minor, patch }, j3)),
                            }
                        } else {
                            None
                        }
                    },
                }
            } else {
                None
            }
        },
    }
}

/// A `year-month-day` date at `i`.
pub fn date_at_exec(t: &Vec<u8>, i: usize) -> (r: Option<(Date, usize)>)
    requires
        i <= t@.len(),
    ensures
        date_at(t@, i as int) == (match r {
            None => None::<(Date, int)>,
            Some((d, j)) => Some((d, j as int)),
        }),
        r matches Some(p) ==> i <= p.1 <= t@.len(),
{
    if t.len() - i < 10 {
        return None;
    }
    let digits_ok = all_digits_exec(t, i, i + 4) && all_digits_exec(t, i + 5, i + 7)
        && all_digits_exec(t, i + 8, i + 10);
    if !(digits_ok && t[i + 4] == 45 && t[i + 7] == 45) {
        return None;
    }
    let y = num_val_exec(t, i, i + 4);
    let m = num_val_exec(t, i + 5, i + 7);
    let d = num_val_exec(t, i + 8, i + 10);
    match (y, m, d) {
        (Some(y), Some(m), Some(d)) => {
            if y <= 9999 && 1 <= m && m <= 12 && 1 <= d && d <= 31 {
                Some((Date { year: y as u16, month: m as u8, day: d as u8 }, i + 10))
            } else {
                None
            }
        },
        _ => None,
    }
}

/// The word "unreleased" in any case at `i`, followed only by spaces.
pub fn unreleased_at_exec(t: &Vec<u8>, i: usize) -> (b: bool)
    requires
        i <= t@.len(),
    ensures
        b == unreleased_word_at(t@, i as int),
{
    if t.len() - i < 10 {
        return false;
    }
    let word = lower_byte(t[i]) == 117 && lower_byte(t[i + 1]) == 110 && lower_byte(t[i + 2])
        == 114 && lower_byte(t[i + 3]) == 101 && lower_byte(t[i + 4]) == 108 && lower_byte(
        t[i + 5],
    ) == 101 && lower_byte(t[i + 6]) == 97 && lower_byte(t[i + 7]) == 115 && lower_byte(t[i + 8])
        == 101 && lower_byte(t[i + 9]) == 100;
    if !word {
        return false;
    }
    let e = skip_spaces_exec(t, i + 10);
    e == t.len()
}

/// The message a diagnostic carries for each failing heading token.
pub fn err_message_exec(e: HeaderErr) -> (s: String)
    ensures
        s@ == err_message(e),
{
    match e {
        HeaderErr::ExpectedVersion => "expected a semantic version or the word Unreleased".to_owned(),
        HeaderErr::BadDate => "expected a release date like 2020-01-02".to_owned(),
        HeaderErr::Trailing => "unexpected text after the release date".to_owned(),
    }
}

/// Parses one level-2 heading's inline text.
pub fn header_parse_exec(t: &Vec<u8>) -> (r: Result<(Option<Version>, Option<Date>), HeaderErr>)
    ensures
        r == header_parse(t@),
{
    let i0 = skip_spaces_exec(t, 0);
    if unreleased_at_exec(t, i0) {
        return Ok((None, None));
    }
    let i1 = if i0 < t.len() && t[i0] == 91 {
        i0 + 1
    } else {
        i0
    };
    match version_at_exec(t, i1) {
        None => Err(HeaderErr::ExpectedVersion),
        Some((ver, j0)) => {
            let j1 = if j0 < t.len() && t[j0] == 93 {
                j0 + 1
            } else {
                j0
            };
            let j2 = skip_spaces_exec(t, j1);
            let j3 = if j2 < t.len() && t[j2] == 45 {
                skip_spaces_exec(t, j2 + 1)
            } else {
                j2
            };
            if j3 == t.len() {
                Ok((Some(ver), None))
            } else {
                match date_at_exec(t, j3) {
                    None => Err(HeaderErr::BadDate),
                    Some((date, k)) => {
                        if skip_spaces_exec(t, k) == t.len() {
                            Ok((Some(ver), Some(date)))
                        } else {
                            Err(HeaderErr::Trailing)
                        }
                    },
                }
            }
        },
    }
}

/// The inline text one event contributes to a heading's text: text and inline
/// code contribute their bytes, a soft break one space, every other event
/// nothing.
pub open spec fn inline_bytes(e: MdEvent) -> Seq<u8> {
    match e {
        MdEvent::Text(t) => t@,
        MdEvent::Code(t) => t@,
        MdEvent::SoftBreak => seq![32u8],
        _ => Seq::empty(),
    }
}

/// The inline text of a whole buffered heading, in event order.
pub open spec fn text_of(buf: Seq<(MdEvent, Span)>) -> Seq<u8>
    decreases buf.len(),
{
    if buf.len() == 0 {
        Seq::empty()
    } else {
        text_of(buf.drop_last()) + inline_bytes(buf.last().0)
    }
}

/// The destination of the first link opened in a buffered heading, if any.
pub open spec fn link_of(buf: Seq<(MdEvent, Span)>) -> Option<Seq<u8>>
    decreases buf.len(),
{
    if buf.len() == 0 {
        None
    } else {
        match link_of(buf.drop_last()) {
            Some(u) => Some(u),
            None => match buf.last().0 {
                MdEvent::Start(MdTag::Link(url, _)) => Some(url@),
                _ => None,
            },
        }
    }
}

/// The span of the buffered heading: the byte range of its opening event.
pub open spec fn header_span(buf: Seq<(MdEvent, Span)>) -> Span {
    if buf.len() > 0 {
        buf[0].1
    } else {
        Span { start: 0, end: 0 }
    }
}

/// What the header extractor makes of one buffered level-2 heading: a release
/// skeleton with empty changes, or the diagnostic for the failing token, with
/// the heading's own span either way.
pub open spec fn header_of(buf: Seq<(MdEvent, Span)>) -> Result<ReleaseM, DiagM> {
    match header_parse(text_of(buf)) {
        Ok((version, date)) => Ok(
            ReleaseM {
                version,
                date,
                link: link_of(buf),
                changes: ChangesM::empty(),
                span: header_span(buf),
            },
        ),
        Err(e) => Err(
            DiagM { severity: Severity::Error, message: err_message(e), span: header_span(buf) },
        ),
    }
}

/// A fresh copy of a byte string.
fn copy_bytes(src: &Vec<u8>) -> (r: Vec<u8>)
    ensures
        r@ == src@,
{
    let mut r: Vec<u8> = Vec::new();
    let mut k: usize = 0;
    while k < src.len()
        invariant
            k <= src@.len(),
            r@ == src@.take(k as int),
        decreases src@.len() - k,
    {
        r.push(src[k]);
        proof {
            assert(src@.take(k + 1 as int) =~= src@.take(k as int).push(src@[k as int]));
        }
        k = k + 1;
    }
    proof {
        assert(src@.take(src@.len() as int) =~= src@);
    }
    r
}

/// Extracts a release skeleton from the buffered events of one level-2
/// heading, or the diagnostic for the token that failed to parse, tagged with
/// `file_id`.
pub fn parse_header(buffer: Vec<(MdEvent, Span)>, file_id: FileId) -> (r: Result<Release, Diag>)
    ensures
        match header_of(buffer@) {
            Ok(rm) => r matches Ok(rel) && rel.model() == rm,
            Err(dm) => r matches Err(d) && d.model() == dm && d.file_id == file_id,
        },
{
    let ghost bufm = buffer@;

    // Gather the heading's inline text.
    let mut text: Vec<u8> = Vec::new();
    let mut i: usize = 0;
    while i < buffer.len()
        invariant
            i <= buffer@.len(),
            buffer@ == bufm,
            text@ == text_of(bufm.take(i as int)),
        decreases buffer@.len() - i,
    {
        match &buffer[i].0 {
            MdEvent::Text(t) => {
                let mut k: usize = 0;
                while k < t.len()
                    invariant
                        k <= t@.len(),
                        text@ == text_of(bufm.take(i as int)) + t@.take(k as int),
                    decreases t@.len() - k,
                {
                    text.push(t[k]);
                    proof {
                        assert(t@.take(k + 1 as int) =~= t@.take(k as int).push(t@[k as int]));
                    }
                    k = k + 1;
                }
                proof {
                    assert(t@.take(t@.len() as int) =~= t@);
                }
            },
            MdEvent::Code(t) => {
                let mut k: usize = 0;
                while k < t.len()
                    invariant
                        k <= t@.len(),
                        text@ == text_of(bufm.take(i as int)) + t@.take(k as int),
                    decreases t@.len() - k,
                {
                    text.push(t[k]);
                    proof {
                        assert(t@.take(k + 1 as int) =~= t@.take(k as int).push(t@[k as int]));
                    }
                    k = k + 1;
                }
                proof {
                    assert(t@.take(t@.len() as int) =~= t@);
                }
            },
            MdEvent::SoftBreak => {
                text.push(32);
            },
            _ => {
                proof {
                    assert(text@ =~= text_of(bufm.take(i as int)) + inline_bytes(bufm[i as int].0));
                }
            },
        }
        proof {
            assert(bufm.take(i + 1 as int).drop_last() =~= bufm.take(i as int));
            assert(bufm.take(i + 1 as int).last() == bufm[i as int]);
            assert(text@ =~= text_of(bufm.take(i + 1 as int)));
        }
        i = i + 1;
    }
    proof {
        assert(bufm.take(bufm.len() as int) =~= bufm);
    }

    // Find the first link destination, if one is opened in the heading.
    let mut link: Option<Vec<u8>> = None;
    let mut j: usize = 0;
    while j < buffer.len()
        invariant
            j <= buffer@.len(),
            buffer@ == bufm,
            match link {
                None => link_of(bufm.take(j as int)) is None,
                Some(u) => link_of(bufm.take(j as int)) == Some(u@),
            },
        decreases buffer@.len() - j,
    {
        proof {
            assert(bufm.take(j + 1 as int).drop_last() =~= bufm.take(j as int));
            assert(bufm.take(j + 1 as int).last() == bufm[j as int]);
        }
        if link.is_none() {
            match &buffer[j].0 {
                MdEvent::Start(MdTag::Link(url, _)) => {
                    link = Some(copy_bytes(url));
                },
                _ => {},
            }
        }
        j = j + 1;
    }
    proof {
        assert(bufm.take(bufm.len() as int) =~= bufm);
    }

    let span = if buffer.len() > 0 {
        buffer[0].1
    } else {
        Span { start: 0, end: 0 }
    };

    match header_parse_exec(&text) {
        Ok((version, date)) => {
            let rel = Release { version, date, link, changes: Changes::empty(), span };
            proof {
                assert(rel.model() =~~= header_of(bufm)->Ok_0);
            }
            Ok(rel)
        },
        Err(e) => {
            let msg = err_message_exec(e);
            Err(Diag { file_id, severity: Severity::Error, message: msg, span })
        },
    }
}

} // verus!
