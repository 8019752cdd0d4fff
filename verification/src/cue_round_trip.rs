//! What a written `INDEX 01` time reads back as.
use vstd::prelude::*;

use crate::cue::{cue_time, index_lines, postgap_line, CueTrack};
use crate::text::{all_digits, dec, dec_pad, digit_char, digits_value, find_char_from, is_digit,
    is_space, parse_i32, repeat, zero_pad};
use crate::workflow::{cue_index_fields, cue_index_fits, cue_index_lsn, skip_space, skip_word,
    words, words_from};

verus! {

/// The decimal digits of `n` are digits, and they read back as `n`.
proof fn lemma_dec_digits(n: nat)
    ensures
        dec(n).len() >= 1,
        all_digits(dec(n)),
        digits_value(dec(n)) == n,
    decreases n,
{
    if n < 10 {
        let s = dec(n);
        assert(s.drop_last() =~= Seq::<char>::empty());
        assert(digits_value(Seq::<char>::empty()) == 0);
        assert(digit_char(n as int) as int == n + 48);
        assert(s.last() == digit_char(n as int));
    } else {
        lemma_dec_digits(n / 10);
        let d = dec(n / 10);
        let s = dec(n);
        assert(s.drop_last() =~= d);
        assert(digit_char((n % 10) as int) as int == n % 10 + 48);
        assert forall|i: int| 0 <= i < s.len() implies #[trigger] is_digit(s[i]) by {
            if i < d.len() {
                assert(is_digit(d[i]));
            }
        }
    }
}

/// Zeros in front of digits change neither that they are digits nor their
/// value.
proof fn lemma_zeros_in_front(k: nat, s: Seq<char>)
    requires
        all_digits(s),
    ensures
        all_digits(repeat('0', k) + s),
        digits_value(repeat('0', k) + s) == digits_value(s),
    decreases s.len(),
{
    let z = repeat('0', k);
    assert forall|i: int| 0 <= i < (z + s).len() implies #[trigger] is_digit((z + s)[i]) by {
        if i >= z.len() {
            assert(is_digit(s[i - z.len()]));
        }
    }
    if s.len() == 0 {
        assert(z + s =~= z);
        lemma_zeros_value(k);
    } else {
        lemma_zeros_in_front(k, s.drop_last());
        assert((z + s).drop_last() =~= z + s.drop_last());
        assert((z + s).last() == s.last());
    }
}

proof fn lemma_zeros_value(k: nat)
    ensures
        digits_value(repeat('0', k)) == 0,
    decreases k,
{
    if k > 0 {
        lemma_zeros_value((k - 1) as nat);
        assert(repeat('0', k).drop_last() =~= repeat('0', (k - 1) as nat));
    }
}

/// A zero-padded decimal is digits, starts with a digit, and reads back as
/// its number.
proof fn lemma_dec_pad(n: nat, w: nat)
    requires
        n <= i32::MAX,
    ensures
        dec_pad(n, w).len() >= 1,
        all_digits(dec_pad(n, w)),
        parse_i32(dec_pad(n, w)) == Some(n as i32),
{
    lemma_dec_digits(n);
    let d = dec(n);
    if d.len() < w {
        lemma_zeros_in_front((w - d.len()) as nat, d);
        assert(zero_pad(d, w) == repeat('0', (w - d.len()) as nat) + d);
    }
    let s = dec_pad(n, w);
    assert(is_digit(s[0]));
}

/// Where `find_char_from` lands when `c` first occurs at `i`, or never.
proof fn lemma_find_first(s: Seq<char>, c: char, from: int, i: int)
    requires
        0 <= from <= i <= s.len(),
        forall|k: int| from <= k < i ==> s[k] != c,
        i < s.len() ==> s[i] == c,
    ensures
        find_char_from(s, c, from) == if i < s.len() {
            Some(i)
        } else {
            None::<int>
        },
    decreases i - from,
{
    if from < i {
        lemma_find_first(s, c, from + 1, i);
    }
}

/// A run of non-space characters up to the end is one word.
proof fn lemma_word_to_end(s: Seq<char>, j: int)
    requires
        0 <= j <= s.len(),
        forall|k: int| j <= k < s.len() ==> !is_space(#[trigger] s[k]),
    ensures
        skip_word(s, j) == s.len(),
    decreases s.len() - j,
{
    if j < s.len() {
        lemma_word_to_end(s, j + 1);
    }
}

/// The words of an indented `INDEX 01` line whose time holds no space.
proof fn lemma_index_line_words(t: Seq<char>)
    requires
        t.len() >= 1,
        forall|k: int| 0 <= k < t.len() ==> !is_space(#[trigger] t[k]),
    ensures
        words("    INDEX 01 "@ + t) == seq!["INDEX"@, "01"@, t],
        crate::workflow::ascii_lower("INDEX"@) == "index"@,
{
    reveal_strlit("    INDEX 01 ");
    reveal_strlit("INDEX");
    reveal_strlit("index");
    reveal_strlit("01");
    let p = "    INDEX 01 "@;
    let line = p + t;
    assert(p.len() == 13);
    assert forall|k: int| 0 <= k < 13 implies line[k] == #[trigger] p[k] by {}
    assert(is_space(' '));
    assert(!is_space('I') && !is_space('N') && !is_space('D') && !is_space('E') && !is_space('X'));
    assert(!is_space('0') && !is_space('1'));
    assert(skip_space(line, 4) == 4);
    assert(skip_space(line, 3) == 4);
    assert(skip_space(line, 2) == 4);
    assert(skip_space(line, 1) == 4);
    assert(skip_space(line, 0) == 4);
    assert(skip_word(line, 9) == 9);
    assert(skip_word(line, 8) == 9);
    assert(skip_word(line, 7) == 9);
    assert(skip_word(line, 6) == 9);
    assert(skip_word(line, 5) == 9);
    assert(skip_word(line, 4) == 9);
    assert(skip_space(line, 10) == 10);
    assert(skip_space(line, 9) == 10);
    assert(skip_word(line, 12) == 12);
    assert(skip_word(line, 11) == 12);
    assert(skip_word(line, 10) == 12);
    assert(!is_space(line[13]));
    assert(skip_space(line, 13) == 13);
    assert(skip_space(line, 12) == 13);
    assert forall|k: int| 13 <= k < line.len() implies !is_space(#[trigger] line[k]) by {
        assert(line[k] == t[k - 13]);
    }
    lemma_word_to_end(line, 13);
    assert(skip_space(line, line.len() as int) == line.len());
    assert(words_from(line, line.len() as int) =~= Seq::<Seq<char>>::empty());
    assert(words_from(line, 12) =~= seq![line.subrange(13, line.len() as int)]);
    assert(words_from(line, 9) =~= seq![line.subrange(10, 12), line.subrange(13, line.len() as int)]);
    assert(line.subrange(13, line.len() as int) =~= t);
    assert(line.subrange(4, 9) =~= "INDEX"@);
    assert(line.subrange(10, 12) =~= "01"@);
    assert(crate::workflow::ascii_lower("INDEX"@) =~= "index"@);
}

/// Reading back the time `frames_to_cue` writes on an `INDEX 01` line, as
/// the CUE sheet indents it, gives the same start.
pub proof fn law_cue_index_round_trip(f: nat)
    requires
        f <= i32::MAX,
    ensures
        cue_index_fits("    INDEX 01 "@ + cue_time(f)),
        cue_index_lsn("    INDEX 01 "@ + cue_time(f)) == Some(f as i32),
{
    reveal_strlit("    INDEX 01 ");
    reveal_strlit(":");
    reveal_strlit("index");
    reveal_strlit("01");
    let mm = f / 4500;
    let ss = (f % 4500) / 75;
    let ff = f % 75;
    let a = dec_pad(mm, 2);
    let b = dec_pad(ss, 2);
    let c = dec_pad(ff, 2);
    lemma_dec_pad(mm, 2);
    lemma_dec_pad(ss, 2);
    lemma_dec_pad(ff, 2);
    let t = cue_time(f);
    assert(t =~= a + ":"@ + b + ":"@ + c);
    let c1 = a.len() as int;
    let c2 = c1 + 1 + b.len();
    assert forall|k: int| 0 <= k < t.len() implies !is_space(#[trigger] t[k]) && (t[k] == ':' <==> (k
        == c1 || k == c2)) by {
        if k < c1 {
            assert(is_digit(a[k]));
        } else if c1 < k < c2 {
            assert(is_digit(b[k - c1 - 1]));
        } else if k > c2 {
            assert(is_digit(c[k - c2 - 1]));
        }
    }
    lemma_find_first(t, ':', 0, c1);
    lemma_find_first(t, ':', c1 + 1, c2);
    lemma_find_first(t, ':', c2 + 1, t.len() as int);
    assert(t.subrange(0, c1) =~= a);
    assert(t.subrange(c1 + 1, c2) =~= b);
    assert(t.subrange(c2 + 1, t.len() as int) =~= c);

    let line = "    INDEX 01 "@ + t;
    lemma_index_line_words(t);
    assert(cue_index_fields(line) == Some((mm as i32, ss as i32, ff as i32)));
    assert(mm * 4500 + ss * 75 + ff == f) by (nonlinear_arith)
        requires
            mm == f / 4500,
            ss == (f % 4500) / 75,
            ff == f % 75,
    ;
    assert(mm * 60 <= i32::MAX && mm * 60 * 75 == mm * 4500) by (nonlinear_arith)
        requires
            mm == f / 4500,
            f <= i32::MAX,
    ;
}


/// Zero frames is written `00:00:00`.
proof fn lemma_cue_time_zero()
    ensures
        cue_time(0) == "00:00:00"@,
{
    reveal_strlit("00:00:00");
    reveal_strlit(":");
    assert(dec(0) =~= seq!['0']);
    assert(dec_pad(0, 2) =~= seq!['0', '0']);
    assert(cue_time(0) =~= "00:00:00"@);
}

/// A track whose pregap is merged into its file: `INDEX 00` opens the file
/// at `00:00:00`, and `INDEX 01` comes after the pregap, so reading its time
/// back gives the pregap's length in frames.
pub proof fn law_merged_pregap_index_lines(t: CueTrack, m: u32)
    requires
        t.merged_pregap_end == Some(m),
        t.dropped_pregap_start is None,
        t.start_lsn_sig <= m,
        m - t.start_lsn_sig <= i32::MAX,
    ensures
        exists|time: Seq<char>|
            {
                &&& index_lines(t) == "    INDEX 00 00:00:00\n"@ + "    INDEX 01 "@ + time + "\n"@ + postgap_line(t)
                &&& #[trigger] cue_index_lsn("    INDEX 01 "@ + time) == Some((m - t.start_lsn_sig) as i32)
            },
{
    reveal_strlit("    INDEX 00 00:00:00\n");
    reveal_strlit("    INDEX 00 ");
    reveal_strlit("00:00:00");
    reveal_strlit("\n");
    lemma_cue_time_zero();
    let f = (m - t.start_lsn_sig) as nat;
    law_cue_index_round_trip(f);
    let time = cue_time(f);
    assert("    INDEX 00 00:00:00\n"@ =~= "    INDEX 00 "@ + cue_time(0) + "\n"@);
    assert(index_lines(t) =~= "    INDEX 00 00:00:00\n"@ + "    INDEX 01 "@ + time + "\n"@ + postgap_line(t));
}


/// A track whose pregap was dropped from its file has its pregap written as
/// a `PREGAP` of the dropped length and starts at `00:00:00` of its file; a
/// track without a pregap of its own starts at `00:00:00` too.
pub proof fn law_unmerged_track_starts_its_file(t: CueTrack)
    requires
        t.merged_pregap_end is None,
        t.dropped_pregap_start matches Some(d) ==> d <= t.start_lsn_sig,
    ensures
        t.dropped_pregap_start is Some && t.dropped_pregap_start != Some(t.start_lsn) ==> index_lines(t)
            == "    PREGAP "@ + cue_time((t.start_lsn_sig - t.dropped_pregap_start->Some_0) as nat) + "\n    INDEX 01 00:00:00\n"@ + postgap_line(t),
        !(t.dropped_pregap_start is Some && t.dropped_pregap_start != Some(t.start_lsn)) ==> index_lines(t)
            == "    INDEX 01 00:00:00\n"@ + postgap_line(t),
{
    reveal_strlit("\n    INDEX 01 00:00:00\n");
    reveal_strlit("    INDEX 01 00:00:00\n");
    reveal_strlit("    INDEX 01 ");
    reveal_strlit("00:00:00");
    reveal_strlit("\n");
    lemma_cue_time_zero();
    if t.dropped_pregap_start is Some && t.dropped_pregap_start != Some(t.start_lsn) {
        assert(index_lines(t) =~= "    PREGAP "@ + cue_time((t.start_lsn_sig - t.dropped_pregap_start->Some_0) as nat)
            + "\n    INDEX 01 00:00:00\n"@ + postgap_line(t));
    } else {
        assert(index_lines(t) =~= "    INDEX 01 00:00:00\n"@ + postgap_line(t));
    }
}

} // verus!
