use crate::chunk::Timestamp;
use vstd::prelude::*;

verus! {

/// The ASCII digit for `d`, a value below ten.
pub open spec fn digit(d: nat) -> u8 {
    (48 + d) as u8
}

/// `n` in decimal, without leading zeros.
pub open spec fn decimal(n: nat) -> Seq<u8>
    decreases n,
{
    if n < 10 {
        seq![digit(n)]
    } else {
        decimal(n / 10).push(digit(n % 10))
    }
}

/// `n` in decimal, with zeros in front up to `width` digits.
pub open spec fn padded(n: nat, width: nat) -> Seq<u8> {
    let d = decimal(n);
    if d.len() >= width {
        d
    } else {
        Seq::new((width - d.len()) as nat, |i: int| 48u8) + d
    }
}

/// Appends `n` in decimal.
pub fn push_decimal(out: &mut Vec<u8>, n: u64)
    ensures
        final(out)@ == old(out)@ + decimal(n as nat),
    decreases n,
{
    if n >= 10 {
        push_decimal(out, n / 10);
    }
    out.push((48 + n % 10) as u8);
    proof {
        assert(final(out)@ =~= old(out)@ + decimal(n as nat));
    }
}

/// Appends `n` in decimal, with zeros in front up to `width` digits.
pub fn push_padded(out: &mut Vec<u8>, n: u64, width: usize)
    ensures
        final(out)@ == old(out)@ + padded(n as nat, width as nat),
{
    let mut digits: Vec<u8> = Vec::new();
    push_decimal(&mut digits, n);
    assert(digits@ =~= decimal(n as nat));
    let ghost start = out@;
    let mut i: usize = digits.len();
    while i < width
        invariant
            digits.len() <= i <= width || i == digits.len(),
            digits@ == decimal(n as nat),
            out@ == start + Seq::new((i - digits.len()) as nat, |k: int| 48u8),
        decreases width - i,
    {
        out.push(48u8);
        i = i + 1;
        assert(out@ =~= start + Seq::new((i - digits.len()) as nat, |k: int| 48u8));
    }
    let ghost zeros = out@;
    let mut j: usize = 0;
    while j < digits.len()
        invariant
            j <= digits.len(),
            out@ == zeros + digits@.subrange(0, j as int),
        decreases digits.len() - j,
    {
        out.push(digits[j]);
        j = j + 1;
        assert(out@ =~= zeros + digits@.subrange(0, j as int));
    }
    assert(digits@.subrange(0, digits.len() as int) =~= digits@);
    assert(out@ =~= start + padded(n as nat, width as nat));
}

/// A year as `%Y` writes it: four digits at least, and a sign for a year
/// before 0 or after 9999.
pub open spec fn year_text(y: int) -> Seq<u8> {
    if y < 0 {
        seq![45u8] + padded((-y) as nat, 4)
    } else if y > 9999 {
        seq![43u8] + decimal(y as nat)
    } else {
        padded(y as nat, 4)
    }
}

/// `HH:MM:SS` of a timestamp's civil time.
pub open spec fn clock_text(t: Timestamp) -> Seq<u8> {
    padded(t.hour as nat, 2) + seq![58u8] + padded(t.minute as nat, 2) + seq![58u8] + padded(
        t.second as nat,
        2,
    )
}

/// A window start as file names write it: `YYYY-MM-DDTHH:MM:SS`.
pub open spec fn stamp_text(t: Timestamp) -> Seq<u8> {
    year_text(t.year as int) + seq![45u8] + padded(t.month as nat, 2) + seq![45u8] + padded(
        t.day as nat,
        2,
    ) + seq![84u8] + clock_text(t)
}

/// The name of the recording file whose window starts at `t`:
/// `YYYY-MM-DDTHH:MM:SS.ts`.
pub open spec fn recording_file_name(t: Timestamp) -> Seq<u8> {
    stamp_text(t) + seq![46u8, 116u8, 115u8]
}

/// The name of the caption file beside the recording whose window starts at
/// `t`: `YYYY-MM-DDTHH:MM:SS.srt`.
pub open spec fn caption_file_name(t: Timestamp) -> Seq<u8> {
    stamp_text(t) + seq![46u8, 115u8, 114u8, 116u8]
}

fn push_year(out: &mut Vec<u8>, y: i32)
    ensures
        final(out)@ == old(out)@ + year_text(y as int),
{
    if y < 0 {
        out.push(45u8);
        push_padded(out, (0 - (y as i64)) as u64, 4);
    } else if y > 9999 {
        out.push(43u8);
        push_decimal(out, y as u64);
    } else {
        push_padded(out, y as u64, 4);
    }
    assert(final(out)@ =~= old(out)@ + year_text(y as int));
}

pub fn push_clock(out: &mut Vec<u8>, t: &Timestamp)
    ensures
        final(out)@ == old(out)@ + clock_text(*t),
{
    push_padded(out, t.hour as u64, 2);
    out.push(58u8);
    push_padded(out, t.minute as u64, 2);
    out.push(58u8);
    push_padded(out, t.second as u64, 2);
    assert(final(out)@ =~= old(out)@ + clock_text(*t));
}

fn push_stamp(out: &mut Vec<u8>, t: &Timestamp)
    ensures
        final(out)@ == old(out)@ + stamp_text(*t),
{
    push_year(out, t.year);
    out.push(45u8);
    push_padded(out, t.month as u64, 2);
    out.push(45u8);
    push_padded(out, t.day as u64, 2);
    out.push(84u8);
    push_clock(out, t);
    assert(final(out)@ =~= old(out)@ + stamp_text(*t));
}

/// The file name of the recording whose window starts at `t`.
pub fn file_name_for(t: &Timestamp) -> (r: Vec<u8>)
    ensures
        r@ == recording_file_name(*t),
{
    let mut out: Vec<u8> = Vec::new();
    push_stamp(&mut out, t);
    out.push(46u8);
    out.push(116u8);
    out.push(115u8);
    assert(out@ =~= recording_file_name(*t));
    out
}

/// The file name of the caption track beside the recording whose window
/// starts at `t`.
pub fn caption_name_for(t: &Timestamp) -> (r: Vec<u8>)
    ensures
        r@ == caption_file_name(*t),
{
    let mut out: Vec<u8> = Vec::new();
    push_stamp(&mut out, t);
    out.push(46u8);
    out.push(115u8);
    out.push(114u8);
    out.push(116u8);
    assert(out@ =~= caption_file_name(*t));
    out
}

/// An offset in milliseconds as a subtitle cue writes it: `HH:MM:SS,mmm`,
/// with more hour digits where needed.
pub open spec fn cue_time_text(ms: nat) -> Seq<u8> {
    padded(ms / 3600000, 2) + seq![58u8] + padded((ms / 60000) % 60, 2) + seq![58u8] + padded(
        (ms / 1000) % 60,
        2,
    ) + seq![44u8] + padded(ms % 1000, 3)
}

/// Appends an offset in milliseconds as `HH:MM:SS,mmm`.
pub fn push_cue_time(out: &mut Vec<u8>, ms: u64)
    ensures
        final(out)@ == old(out)@ + cue_time_text(ms as nat),
{
    push_padded(out, ms / 3600000, 2);
    out.push(58u8);
    push_padded(out, (ms / 60000) % 60, 2);
    out.push(58u8);
    push_padded(out, (ms / 1000) % 60, 2);
    out.push(44u8);
    push_padded(out, ms % 1000, 3);
    assert(final(out)@ =~= old(out)@ + cue_time_text(ms as nat));
}

} // verus!
