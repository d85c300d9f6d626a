use vstd::prelude::*;

use crate::args::{has_flag, Flag};

verus! {

/// Line feed.
pub const NL: u8 = 10;

/// Horizontal tab.
pub const TAB: u8 = 9;

/// The end-of-line marker written by the show-ends stage.
pub const DOLLAR: u8 = 36;

/// The byte sequence made by replacing each byte `b` of `s` with `piece(b)`.
pub open spec fn expand_bytes(s: Seq<u8>, piece: spec_fn(u8) -> Seq<u8>) -> Seq<u8>
    decreases s.len(),
{
    if s.len() == 0 {
        Seq::empty()
    } else {
        expand_bytes(s.drop_last(), piece) + piece(s.last())
    }
}

/// What the show-tabs stage writes for one byte: a tab becomes `^I`.
pub open spec fn tab_piece(b: u8) -> Seq<u8> {
    if b == TAB {
        seq![94u8, 73u8]
    } else {
        seq![b]
    }
}

/// The buffer after the show-tabs stage.
pub open spec fn tabs_shown(s: Seq<u8>) -> Seq<u8> {
    expand_bytes(s, |b: u8| tab_piece(b))
}

/// Replaces every tab byte with the two bytes `^I`.
pub fn show_tabs(s: &Vec<u8>) -> (r: Vec<u8>)
    ensures
        r@ == tabs_shown(s@),
{
    let mut out: Vec<u8> = Vec::new();
    let n = s.len();
    for i in 0..n
        invariant
            n == s.len(),
            out@ == expand_bytes(s@.subrange(0, i as int), |b: u8| tab_piece(b)),
    {
        let b = s[i];
        if b == TAB {
            out.push(94u8);
            out.push(73u8);
        } else {
            out.push(b);
        }
        assert(s@.subrange(0, i + 1).drop_last() == s@.subrange(0, i as int));
    }
    assert(s@.subrange(0, n as int) == s@);
    out
}


/// What the show-ends stage writes for one byte: a `$` goes before each line feed.
pub open spec fn end_piece(b: u8) -> Seq<u8> {
    if b == NL {
        seq![DOLLAR, NL]
    } else {
        seq![b]
    }
}

/// The buffer after the show-ends stage.
pub open spec fn ends_shown(s: Seq<u8>) -> Seq<u8> {
    expand_bytes(s, |b: u8| end_piece(b))
}

/// Writes `$` immediately before every line feed.
pub fn show_ends(s: &Vec<u8>) -> (r: Vec<u8>)
    ensures
        r@ == ends_shown(s@),
{
    let mut out: Vec<u8> = Vec::new();
    let n = s.len();
    for i in 0..n
        invariant
            n == s.len(),
            out@ == expand_bytes(s@.subrange(0, i as int), |b: u8| end_piece(b)),
    {
        let b = s[i];
        if b == NL {
            out.push(DOLLAR);
        }
        out.push(b);
        assert(s@.subrange(0, i + 1).drop_last() == s@.subrange(0, i as int));
    }
    assert(s@.subrange(0, n as int) == s@);
    out
}

/// Caret notation for a seven-bit value: a control byte `c` becomes `^`
/// followed by `c + 0x40`, DEL becomes `^?`, a printable byte stays.
pub open spec fn caret(c: u8) -> Seq<u8> {
    if c < 32 {
        seq![94u8, (c + 64) as u8]
    } else if c == 127 {
        seq![94u8, 63u8]
    } else {
        seq![c]
    }
}

/// What the show-nonprinting stage writes for one byte.
///
/// Line feed and tab pass through unchanged; other bytes below 0x80 are
/// written in caret notation; a byte with the high bit set is written as
/// `M-` followed by the caret notation of its low seven bits.
pub open spec fn escape(b: u8) -> Seq<u8> {
    if b == NL || b == TAB {
        seq![b]
    } else if b < 128 {
        caret(b)
    } else {
        seq![77u8, 45u8] + caret((b - 128) as u8)
    }
}

/// The buffer after the show-nonprinting stage.
pub open spec fn nonprinting_shown(s: Seq<u8>) -> Seq<u8> {
    expand_bytes(s, |b: u8| escape(b))
}

fn push_caret(out: &mut Vec<u8>, c: u8)
    requires
        c < 128,
    ensures
        final(out)@ == old(out)@ + caret(c),
{
    if c < 32 {
        out.push(94u8);
        out.push(c + 64);
    } else if c == 127 {
        out.push(94u8);
        out.push(63u8);
    } else {
        out.push(c);
    }
}

fn push_escaped(out: &mut Vec<u8>, b: u8)
    ensures
        final(out)@ == old(out)@ + escape(b),
{
    if b == NL || b == TAB {
        out.push(b);
    } else if b < 128 {
        push_caret(out, b);
    } else {
        out.push(77u8);
        out.push(45u8);
        push_caret(out, b - 128);
        assert(final(out)@ == old(out)@ + escape(b));
    }
}

/// Rewrites every byte in caret and `M-` notation (see `escape`); line
/// feeds and tabs are kept as they are.
pub fn show_nonprinting(s: &Vec<u8>) -> (r: Vec<u8>)
    ensures
        r@ == nonprinting_shown(s@),
{
    let mut out: Vec<u8> = Vec::new();
    let n = s.len();
    for i in 0..n
        invariant
            n == s.len(),
            out@ == expand_bytes(s@.subrange(0, i as int), |b: u8| escape(b)),
    {
        push_escaped(&mut out, s[i]);
        assert(s@.subrange(0, i + 1).drop_last() == s@.subrange(0, i as int));
    }
    assert(s@.subrange(0, n as int) == s@);
    out
}

/// Whether `o` ends with an empty line: its last byte is a line feed that
/// either starts the buffer or follows another line feed.
pub open spec fn ends_blank(o: Seq<u8>) -> bool {
    o.len() >= 1 && o.last() == NL && (o.len() == 1 || o[o.len() - 2] == NL)
}

/// The buffer after the squeeze-blanks stage: a line feed that would open a
/// second empty line in a row is left out, so each run of empty lines
/// becomes a single empty line.
pub open spec fn blanks_squeezed(s: Seq<u8>) -> Seq<u8>
    decreases s.len(),
{
    if s.len() == 0 {
        Seq::empty()
    } else {
        let o = blanks_squeezed(s.drop_last());
        if s.last() == NL && ends_blank(o) {
            o
        } else {
            o.push(s.last())
        }
    }
}

/// Collapses every run of empty lines into one empty line.
pub fn squeeze_blanks(s: &Vec<u8>) -> (r: Vec<u8>)
    ensures
        r@ == blanks_squeezed(s@),
{
    let mut out: Vec<u8> = Vec::new();
    let n = s.len();
    for i in 0..n
        invariant
            n == s.len(),
            out@ == blanks_squeezed(s@.subrange(0, i as int)),
    {
        let b = s[i];
        let m = out.len();
        let blank = m >= 1 && out[m - 1] == NL && (m == 1 || out[m - 2] == NL);
        if !(b == NL && blank) {
            out.push(b);
        }
        assert(s@.subrange(0, i + 1).drop_last() == s@.subrange(0, i as int));
    }
    assert(s@.subrange(0, n as int) == s@);
    out
}

/// The decimal digits of `n`, most significant first, as ASCII bytes.
pub open spec fn decimal(n: nat) -> Seq<u8>
    decreases n,
{
    if n < 10 {
        seq![(48 + n) as u8]
    } else {
        decimal(n / 10).push((48 + n % 10) as u8)
    }
}

/// The number column that precedes a numbered line: `n` right-aligned in a
/// field of six characters (wider numbers are not padded), then a tab.
pub open spec fn number_field(n: nat) -> Seq<u8> {
    let d = decimal(n);
    let pad = if d.len() < 6 {
        (6 - d.len()) as nat
    } else {
        0
    };
    Seq::new(pad, |i: int| 32u8) + d + seq![TAB]
}

/// The lines of `s` read so far: the completed lines, each without its line
/// feed, and the line still open at the end.
pub open spec fn split_open(s: Seq<u8>) -> (Seq<Seq<u8>>, Seq<u8>)
    decreases s.len(),
{
    if s.len() == 0 {
        (Seq::empty(), Seq::empty())
    } else {
        let p = split_open(s.drop_last());
        if s.last() == NL {
            (p.0.push(p.1), Seq::empty())
        } else {
            (p.0, p.1.push(s.last()))
        }
    }
}

/// The lines of `s`, split at each line feed; a last line without a line
/// feed counts when it is not empty.
pub open spec fn lines(s: Seq<u8>) -> Seq<Seq<u8>> {
    let p = split_open(s);
    if p.1.len() == 0 {
        p.0
    } else {
        p.0.push(p.1)
    }
}

/// Whether the nonblank numbering stage gives line `l` a number: it is not
/// empty, and, when ends are shown, it is not the lone marker `$`.
pub open spec fn counted(l: Seq<u8>, ends: bool) -> bool {
    l.len() > 0 && !(ends && l == seq![DOLLAR])
}

/// How many of the lines `ls` get a number from the nonblank numbering stage.
pub open spec fn count_counted(ls: Seq<Seq<u8>>, ends: bool) -> nat
    decreases ls.len(),
{
    if ls.len() == 0 {
        0
    } else {
        count_counted(ls.drop_last(), ends) + if counted(ls.last(), ends) {
            1nat
        } else {
            0nat
        }
    }
}

/// The lines `ls`, each ended by a line feed, where each counted line is
/// preceded by its number column.
pub open spec fn nonblank_numbered_lines(ls: Seq<Seq<u8>>, ends: bool) -> Seq<u8>
    decreases ls.len(),
{
    if ls.len() == 0 {
        Seq::empty()
    } else {
        let prev = nonblank_numbered_lines(ls.drop_last(), ends);
        let l = ls.last();
        if counted(l, ends) {
            prev + number_field(count_counted(ls.drop_last(), ends) + 1) + l + seq![NL]
        } else {
            prev + l + seq![NL]
        }
    }
}

/// The lines `ls`, each preceded by its number column and ended by a line feed.
pub open spec fn numbered_lines(ls: Seq<Seq<u8>>) -> Seq<u8>
    decreases ls.len(),
{
    if ls.len() == 0 {
        Seq::empty()
    } else {
        numbered_lines(ls.drop_last()) + number_field(ls.len()) + ls.last() + seq![NL]
    }
}

/// The buffer after the nonblank numbering stage.
pub open spec fn nonblank_numbered(s: Seq<u8>, ends: bool) -> Seq<u8> {
    nonblank_numbered_lines(lines(s), ends)
}

/// The buffer after the numbering stage.
pub open spec fn numbered(s: Seq<u8>) -> Seq<u8> {
    numbered_lines(lines(s))
}

fn push_decimal(out: &mut Vec<u8>, n: usize)
    ensures
        final(out)@ == old(out)@ + decimal(n as nat),
    decreases n,
{
    if n < 10 {
        out.push(48 + n as u8);
    } else {
        push_decimal(out, n / 10);
        out.push(48 + (n % 10) as u8);
    }
}

fn decimal_len(n: usize) -> (r: usize)
    ensures
        r == decimal(n as nat).len(),
    decreases n,
{
    if n < 10 {
        1
    } else {
        let k = decimal_len(n / 10);
        proof {
            lemma_decimal_len_bound(n as nat / 10);
        }
        k + 1
    }
}

proof fn lemma_decimal_len_bound(n: nat)
    ensures
        decimal(n).len() <= n + 1,
    decreases n,
{
    if n >= 10 {
        lemma_decimal_len_bound(n / 10);
    }
}

fn push_number_field(out: &mut Vec<u8>, n: usize)
    ensures
        final(out)@ == old(out)@ + number_field(n as nat),
{
    let k = decimal_len(n);
    let ghost start = out@;
    if k < 6 {
        let pad = 6 - k;
        for j in 0..pad
            invariant
                out@ == start + Seq::new(j as nat, |i: int| 32u8),
        {
            out.push(32u8);
            assert(out@ == start + Seq::new((j + 1) as nat, |i: int| 32u8));
        }
    }
    let ghost padded = out@;
    push_decimal(out, n);
    out.push(TAB);
    assert(out@ == start + number_field(n as nat)) by {
        if k >= 6 {
            assert(padded == start + Seq::new(0, |i: int| 32u8));
        }
    }
}

fn push_all(out: &mut Vec<u8>, b: &Vec<u8>)
    ensures
        final(out)@ == old(out)@ + b@,
{
    let ghost start = out@;
    let n = b.len();
    for i in 0..n
        invariant
            n == b.len(),
            out@ == start + b@.subrange(0, i as int),
    {
        out.push(b[i]);
        assert(b@.subrange(0, i + 1) == b@.subrange(0, i as int).push(b[i as int]));
    }
    assert(b@.subrange(0, n as int) == b@);
}

proof fn lemma_split_open_len(s: Seq<u8>)
    ensures
        split_open(s).0.len() + split_open(s).1.len() <= s.len(),
    decreases s.len(),
{
    if s.len() > 0 {
        lemma_split_open_len(s.drop_last());
    }
}

proof fn lemma_count_counted_le(ls: Seq<Seq<u8>>, ends: bool)
    ensures
        count_counted(ls, ends) <= ls.len(),
    decreases ls.len(),
{
    if ls.len() > 0 {
        lemma_count_counted_le(ls.drop_last(), ends);
    }
}

fn is_lone_dollar(l: &Vec<u8>) -> (r: bool)
    ensures
        r == (l@ == seq![DOLLAR]),
{
    if l.len() == 1 && l[0] == DOLLAR {
        assert(l@ =~= seq![DOLLAR]);
        true
    } else {
        assert(l@.len() != 1 || l@[0] != DOLLAR);
        false
    }
}

/// Numbers the nonempty lines, counting from one; empty lines, and when
/// `ends` is set lines that hold only `$`, are written without a number and
/// not counted. Every line of the result ends with a line feed.
pub fn number_nonblank_lines(s: &Vec<u8>, ends: bool) -> (r: Vec<u8>)
    ensures
        r@ == nonblank_numbered(s@, ends),
{
    let mut out: Vec<u8> = Vec::new();
    let mut cur: Vec<u8> = Vec::new();
    let mut count: usize = 0;
    let ghost mut done: Seq<Seq<u8>> = Seq::empty();
    let n = s.len();
    for i in 0..n
        invariant
            n == s.len(),
            split_open(s@.subrange(0, i as int)) == (done, cur@),
            out@ == nonblank_numbered_lines(done, ends),
            count == count_counted(done, ends),
    {
        proof {
            lemma_split_open_len(s@.subrange(0, i as int));
            lemma_count_counted_le(done, ends);
        }
        let b = s[i];
        if b == NL {
            let line_counted = cur.len() > 0 && !(ends && is_lone_dollar(&cur));
            if line_counted {
                count = count + 1;
                push_number_field(&mut out, count);
            }
            push_all(&mut out, &cur);
            out.push(NL);
            proof {
                let ghost prev = done;
                done = done.push(cur@);
                assert(done.drop_last() =~= prev);
            }
            cur.clear();
        } else {
            cur.push(b);
        }
        assert(s@.subrange(0, i + 1).drop_last() == s@.subrange(0, i as int));
    }
    assert(s@.subrange(0, n as int) == s@);
    if cur.len() > 0 {
        proof {
            lemma_split_open_len(s@);
            lemma_count_counted_le(done, ends);
        }
        let line_counted = !(ends && is_lone_dollar(&cur));
        if line_counted {
            count = count + 1;
            push_number_field(&mut out, count);
        }
        push_all(&mut out, &cur);
        out.push(NL);
        proof {
            assert(done.push(cur@).drop_last() =~= done);
        }
    }
    out
}

/// Numbers every line, counting from one. Every line of the result ends with
/// a line feed.
pub fn number_lines(s: &Vec<u8>) -> (r: Vec<u8>)
    ensures
        r@ == numbered(s@),
{
    let mut out: Vec<u8> = Vec::new();
    let mut cur: Vec<u8> = Vec::new();
    let mut count: usize = 0;
    let ghost mut done: Seq<Seq<u8>> = Seq::empty();
    let n = s.len();
    for i in 0..n
        invariant
            n == s.len(),
            split_open(s@.subrange(0, i as int)) == (done, cur@),
            out@ == numbered_lines(done),
            count == done.len(),
    {
        proof {
            lemma_split_open_len(s@.subrange(0, i as int));
        }
        let b = s[i];
        if b == NL {
            count = count + 1;
            push_number_field(&mut out, count);
            push_all(&mut out, &cur);
            out.push(NL);
            proof {
                let ghost prev = done;
                done = done.push(cur@);
                assert(done.drop_last() =~= prev);
            }
            cur.clear();
        } else {
            cur.push(b);
        }
        assert(s@.subrange(0, i + 1).drop_last() == s@.subrange(0, i as int));
    }
    assert(s@.subrange(0, n as int) == s@);
    if cur.len() > 0 {
        proof {
            lemma_split_open_len(s@);
        }
        count = count + 1;
        push_number_field(&mut out, count);
        push_all(&mut out, &cur);
        out.push(NL);
        proof {
            assert(done.push(cur@).drop_last() =~= done);
        }
    }
    out
}

/// The whole pipeline: each stage whose flag is in `flags` rewrites the
/// buffer, in the order tabs, squeeze, ends, nonprinting, numbering. Nonblank
/// numbering takes precedence over numbering every line.
pub open spec fn transform(s: Seq<u8>, flags: Seq<Flag>) -> Seq<u8> {
    let s1 = if flags.contains(Flag::ShowTabs) {
        tabs_shown(s)
    } else {
        s
    };
    let s2 = if flags.contains(Flag::SqueezeBlanks) {
        blanks_squeezed(s1)
    } else {
        s1
    };
    let s3 = if flags.contains(Flag::ShowEnds) {
        ends_shown(s2)
    } else {
        s2
    };
    let s4 = if flags.contains(Flag::ShowNonPrinting) {
        nonprinting_shown(s3)
    } else {
        s3
    };
    if flags.contains(Flag::NumberNonBlankLines) {
        nonblank_numbered(s4, flags.contains(Flag::ShowEnds))
    } else if flags.contains(Flag::NumberLines) {
        numbered(s4)
    } else {
        s4
    }
}

/// Rewrites the buffer `s` by every stage that `flags` asks for (see
/// `transform`). The flags are only read.
pub fn apply_flag_formatting(s: &mut Vec<u8>, flags: &Vec<Flag>)
    ensures
        final(s)@ == transform(old(s)@, flags@),
{
    if has_flag(flags, Flag::ShowTabs) {
        *s = show_tabs(s);
    }
    if has_flag(flags, Flag::SqueezeBlanks) {
        *s = squeeze_blanks(s);
    }
    let ends = has_flag(flags, Flag::ShowEnds);
    if ends {
        *s = show_ends(s);
    }
    if has_flag(flags, Flag::ShowNonPrinting) {
        *s = show_nonprinting(s);
    }
    if has_flag(flags, Flag::NumberNonBlankLines) {
        *s = number_nonblank_lines(s, ends);
    } else if has_flag(flags, Flag::NumberLines) {
        *s = number_lines(s);
    }
}

} // verus!
