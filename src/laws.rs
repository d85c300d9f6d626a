use vstd::prelude::*;

use crate::args::{is_long, is_short, parse_args, parse_prefix, reduce, short_flags, Flag};
use crate::transform::{
    blanks_squeezed, caret, end_piece, ends_blank, ends_shown, escape, expand_bytes,
    nonprinting_shown, tab_piece, tabs_shown, transform, DOLLAR, NL, TAB,
};

verus! {

/// How many times the byte `b` occurs in `s`.
pub open spec fn count(s: Seq<u8>, b: u8) -> nat
    decreases s.len(),
{
    if s.len() == 0 {
        0
    } else {
        count(s.drop_last(), b) + if s.last() == b {
            1nat
        } else {
            0nat
        }
    }
}

/// Whether no empty line in `o` directly follows another empty line.
pub open spec fn no_double_blank(o: Seq<u8>) -> bool {
    forall|i: int| 0 <= i < o.len() ==> !(o[i] == NL && ends_blank(#[trigger] o.subrange(0, i)))
}

/// Whether a byte can be seen on a terminal as it is: printable ASCII, a
/// tab or a line feed.
pub open spec fn visible(x: u8) -> bool {
    (32 <= x && x < 127) || x == TAB || x == NL
}

/// Reads back the byte from the notation that the show-nonprinting stage
/// wrote for it.
pub open spec fn unescape(e: Seq<u8>) -> Option<u8> {
    if e.len() >= 2 && e[0] == 77u8 && e[1] == 45u8 {
        match uncaret(e.subrange(2, e.len() as int)) {
            Some(c) => Some((c + 128) as u8),
            None => None,
        }
    } else {
        uncaret(e)
    }
}

/// Reads back a seven-bit value from caret notation, or a byte written as
/// itself.
pub open spec fn uncaret(e: Seq<u8>) -> Option<u8> {
    if e.len() == 1 {
        Some(e[0])
    } else if e.len() == 2 && e[0] == 94u8 && e[1] == 63u8 {
        Some(127u8)
    } else if e.len() == 2 && e[0] == 94u8 && 64 <= e[1] < 96 {
        Some((e[1] - 64) as u8)
    } else {
        None
    }
}

proof fn lemma_expand_concat(a: Seq<u8>, b: Seq<u8>, piece: spec_fn(u8) -> Seq<u8>)
    ensures
        expand_bytes(a + b, piece) == expand_bytes(a, piece) + expand_bytes(b, piece),
    decreases b.len(),
{
    if b.len() == 0 {
        assert(a + b =~= a);
        assert(expand_bytes(a, piece) + expand_bytes(b, piece) =~= expand_bytes(a, piece));
    } else {
        assert((a + b).drop_last() =~= a + b.drop_last());
        lemma_expand_concat(a, b.drop_last(), piece);
    }
}

proof fn lemma_count_concat(a: Seq<u8>, b: Seq<u8>, x: u8)
    ensures
        count(a + b, x) == count(a, x) + count(b, x),
    decreases b.len(),
{
    if b.len() == 0 {
        assert(a + b =~= a);
    } else {
        assert((a + b).drop_last() =~= a + b.drop_last());
        lemma_count_concat(a, b.drop_last(), x);
    }
}

/// When every piece holds only bytes that meet `p`, so does the whole
/// expansion.
proof fn lemma_expand_all(s: Seq<u8>, piece: spec_fn(u8) -> Seq<u8>, p: spec_fn(u8) -> bool)
    requires
        forall|b: u8, j: int| 0 <= j < piece(b).len() ==> p(#[trigger] piece(b)[j]),
    ensures
        forall|j: int| 0 <= j < expand_bytes(s, piece).len() ==> p(#[trigger] expand_bytes(s, piece)[j]),
    decreases s.len(),
{
    if s.len() > 0 {
        lemma_expand_all(s.drop_last(), piece, p);
        let pre = expand_bytes(s.drop_last(), piece);
        let last = piece(s.last());
        assert forall|j: int| 0 <= j < expand_bytes(s, piece).len() implies p(
            #[trigger] expand_bytes(s, piece)[j],
        ) by {
            if j >= pre.len() {
                assert(expand_bytes(s, piece)[j] == last[j - pre.len()]);
            } else {
                assert(expand_bytes(s, piece)[j] == pre[j]);
            }
        }
    }
}

/// When every byte of `s` is its own piece, the expansion is `s` itself.
proof fn lemma_expand_same(s: Seq<u8>, piece: spec_fn(u8) -> Seq<u8>)
    requires
        forall|j: int| 0 <= j < s.len() ==> piece(#[trigger] s[j]) == seq![s[j]],
    ensures
        expand_bytes(s, piece) == s,
    decreases s.len(),
{
    if s.len() > 0 {
        lemma_expand_same(s.drop_last(), piece);
        assert(s.drop_last().push(s.last()) =~= s);
    }
}

/// With none of the display flags, the text comes out as it went in.
pub proof fn lemma_no_flags_identity(s: Seq<u8>, flags: Seq<Flag>)
    requires
        !flags.contains(Flag::ShowTabs),
        !flags.contains(Flag::SqueezeBlanks),
        !flags.contains(Flag::ShowEnds),
        !flags.contains(Flag::ShowNonPrinting),
        !flags.contains(Flag::NumberNonBlankLines),
        !flags.contains(Flag::NumberLines),
    ensures
        transform(s, flags) == s,
{
}

/// Only the set of flags matters: their order and repetitions do not.
pub proof fn lemma_flag_set_decides(s: Seq<u8>, f: Seq<Flag>, g: Seq<Flag>)
    requires
        forall|x: Flag| f.contains(x) == g.contains(x),
    ensures
        transform(s, f) == transform(s, g),
{
    assert(f.contains(Flag::ShowTabs) == g.contains(Flag::ShowTabs));
    assert(f.contains(Flag::SqueezeBlanks) == g.contains(Flag::SqueezeBlanks));
    assert(f.contains(Flag::ShowEnds) == g.contains(Flag::ShowEnds));
    assert(f.contains(Flag::ShowNonPrinting) == g.contains(Flag::ShowNonPrinting));
    assert(f.contains(Flag::NumberNonBlankLines) == g.contains(Flag::NumberNonBlankLines));
    assert(f.contains(Flag::NumberLines) == g.contains(Flag::NumberLines));
}

/// Nonblank numbering overrides numbering every line: with nonblank
/// numbering requested, adding or removing the request to number every line
/// changes nothing.
pub proof fn lemma_nonblank_overrides(s: Seq<u8>, f: Seq<Flag>, g: Seq<Flag>)
    requires
        f.contains(Flag::NumberNonBlankLines),
        forall|x: Flag| x != Flag::NumberLines ==> f.contains(x) == g.contains(x),
    ensures
        transform(s, f) == transform(s, g),
{
    assert(f.contains(Flag::ShowTabs) == g.contains(Flag::ShowTabs));
    assert(f.contains(Flag::SqueezeBlanks) == g.contains(Flag::SqueezeBlanks));
    assert(f.contains(Flag::ShowEnds) == g.contains(Flag::ShowEnds));
    assert(f.contains(Flag::ShowNonPrinting) == g.contains(Flag::ShowNonPrinting));
    assert(f.contains(Flag::NumberNonBlankLines) == g.contains(Flag::NumberNonBlankLines));
}

proof fn lemma_tabs_len(s: Seq<u8>)
    ensures
        tabs_shown(s).len() == s.len() + count(s, TAB),
    decreases s.len(),
{
    if s.len() > 0 {
        lemma_tabs_len(s.drop_last());
    }
}

proof fn lemma_count_contains(s: Seq<u8>, x: u8)
    ensures
        count(s, x) > 0 <==> s.contains(x),
    decreases s.len(),
{
    if s.len() > 0 {
        lemma_count_contains(s.drop_last(), x);
        if s.drop_last().contains(x) {
            let j = choose|j: int| 0 <= j < s.drop_last().len() && s.drop_last()[j] == x;
            assert(s[j] == x);
        }
        if s.contains(x) && s.last() != x {
            let j = choose|j: int| 0 <= j < s.len() && s[j] == x;
            assert(s.drop_last()[j] == x);
        }
    }
}

/// The show-tabs stage writes every tab as `^I` and changes nothing else:
/// its result holds no tab, is one byte longer per tab, leaves a text
/// without tabs as it is, and changes any text with a tab; applied to its
/// own result it changes nothing.
pub proof fn lemma_show_tabs(s: Seq<u8>)
    ensures
        !tabs_shown(s).contains(TAB),
        tabs_shown(s).len() == s.len() + count(s, TAB),
        tabs_shown(s) == s <==> !s.contains(TAB),
        tabs_shown(tabs_shown(s)) == tabs_shown(s),
{
    let piece = |b: u8| tab_piece(b);
    let p = |x: u8| x != TAB;
    lemma_expand_all(s, piece, p);
    lemma_tabs_len(s);
    lemma_count_contains(s, TAB);
    let t = tabs_shown(s);
    if !s.contains(TAB) {
        lemma_expand_same(s, piece);
    }
    assert forall|j: int| 0 <= j < t.len() implies piece(#[trigger] t[j]) == seq![t[j]] by {
        assert(p(t[j]));
    }
    lemma_expand_same(t, piece);
}

/// The squeeze-blanks stage leaves no empty line directly after another;
/// a text where none does (a single empty line between lines of content
/// included) comes out unchanged; so applying the stage twice is the same
/// as applying it once. It takes out line feeds only.
pub proof fn lemma_squeeze_blanks(s: Seq<u8>)
    ensures
        forall|x: u8| x != NL ==> #[trigger] count(blanks_squeezed(s), x) == count(s, x),
        no_double_blank(blanks_squeezed(s)),
        no_double_blank(s) ==> blanks_squeezed(s) == s,
        blanks_squeezed(blanks_squeezed(s)) == blanks_squeezed(s),
{
    assert forall|x: u8| x != NL implies #[trigger] count(blanks_squeezed(s), x) == count(s, x) by {
        lemma_squeeze_keeps(s, x);
    }
    lemma_squeeze_output(s);
    lemma_squeeze_fixed(s);
    lemma_squeeze_fixed(blanks_squeezed(s));
}

proof fn lemma_squeeze_keeps(s: Seq<u8>, x: u8)
    requires
        x != NL,
    ensures
        count(blanks_squeezed(s), x) == count(s, x),
    decreases s.len(),
{
    if s.len() > 0 {
        lemma_squeeze_keeps(s.drop_last(), x);
        let o = blanks_squeezed(s.drop_last());
        assert(o.push(s.last()).drop_last() =~= o);
    }
}

proof fn lemma_squeeze_output(s: Seq<u8>)
    ensures
        no_double_blank(blanks_squeezed(s)),
    decreases s.len(),
{
    if s.len() > 0 {
        lemma_squeeze_output(s.drop_last());
        let o = blanks_squeezed(s.drop_last());
        if !(s.last() == NL && ends_blank(o)) {
            let o2 = o.push(s.last());
            assert forall|i: int| 0 <= i < o2.len() implies !(o2[i] == NL && ends_blank(
                #[trigger] o2.subrange(0, i),
            )) by {
                if i < o.len() {
                    assert(o2.subrange(0, i) =~= o.subrange(0, i));
                } else {
                    assert(o2.subrange(0, i) =~= o);
                }
            }
        }
    }
}

proof fn lemma_squeeze_fixed(s: Seq<u8>)
    ensures
        no_double_blank(s) ==> blanks_squeezed(s) == s,
    decreases s.len(),
{
    if s.len() > 0 && no_double_blank(s) {
        let d = s.drop_last();
        assert forall|i: int| 0 <= i < d.len() implies !(d[i] == NL && ends_blank(
            #[trigger] d.subrange(0, i),
        )) by {
            assert(d.subrange(0, i) =~= s.subrange(0, i));
        }
        lemma_squeeze_fixed(d);
        assert(s.subrange(0, s.len() - 1) =~= d);
        assert(!(s[s.len() - 1] == NL && ends_blank(s.subrange(0, s.len() - 1))));
        assert(d.push(s.last()) =~= s);
    }
}

proof fn lemma_ends_counts(s: Seq<u8>)
    ensures
        count(ends_shown(s), DOLLAR) == count(s, DOLLAR) + count(s, NL),
        count(ends_shown(s), NL) == count(s, NL),
    decreases s.len(),
{
    if s.len() > 0 {
        lemma_ends_counts(s.drop_last());
        let pre = ends_shown(s.drop_last());
        let last = end_piece(s.last());
        assert(ends_shown(s) == pre + last);
        lemma_count_concat(pre, last, DOLLAR);
        lemma_count_concat(pre, last, NL);
        if s.last() == NL {
            assert(last.drop_last() =~= seq![DOLLAR]);
            assert(last.drop_last().drop_last() =~= Seq::<u8>::empty());
            assert(count(last.drop_last().drop_last(), DOLLAR) == 0);
            assert(count(last.drop_last().drop_last(), NL) == 0);
            assert(last.drop_last().last() == DOLLAR);
            assert(count(last.drop_last(), DOLLAR) == 1);
            assert(count(last.drop_last(), NL) == 0);
            assert(count(last, DOLLAR) == 1);
            assert(count(last, NL) == 1);
        } else {
            assert(last.drop_last() =~= Seq::<u8>::empty());
            assert(count(last.drop_last(), DOLLAR) == 0);
            assert(count(last.drop_last(), NL) == 0);
            assert(count(last, NL) == 0);
            assert(count(last, DOLLAR) == if s.last() == DOLLAR {
                1nat
            } else {
                0nat
            });
        }
    }
}

proof fn lemma_ends_marked(s: Seq<u8>)
    ensures
        forall|i: int|
            0 <= i < ends_shown(s).len() && #[trigger] ends_shown(s)[i] == NL ==> i > 0
                && ends_shown(s)[i - 1] == DOLLAR,
    decreases s.len(),
{
    if s.len() > 0 {
        lemma_ends_marked(s.drop_last());
        let pre = ends_shown(s.drop_last());
        let last = end_piece(s.last());
        let o = ends_shown(s);
        assert(o == pre + last);
        assert forall|i: int| 0 <= i < o.len() && #[trigger] o[i] == NL implies i > 0 && o[i
            - 1] == DOLLAR by {
            if i < pre.len() {
                assert(o[i] == pre[i]);
                assert(o[i - 1] == pre[i - 1]);
            } else {
                assert(o[i] == last[i - pre.len()]);
                if i == pre.len() + 1 {
                    assert(o[i - 1] == last[0]);
                }
            }
        }
    }
}

/// The show-ends stage adds one `$` for each line feed and no other byte
/// but `$`, and every line feed of its result comes right after a `$`.
pub proof fn lemma_show_ends(s: Seq<u8>)
    ensures
        count(ends_shown(s), DOLLAR) == count(s, DOLLAR) + count(s, NL),
        count(ends_shown(s), NL) == count(s, NL),
        ends_shown(s).len() == s.len() + count(s, NL),
        forall|i: int|
            0 <= i < ends_shown(s).len() && #[trigger] ends_shown(s)[i] == NL ==> i > 0
                && ends_shown(s)[i - 1] == DOLLAR,
{
    lemma_ends_counts(s);
    lemma_ends_marked(s);
    lemma_ends_len(s);
}

proof fn lemma_ends_len(s: Seq<u8>)
    ensures
        ends_shown(s).len() == s.len() + count(s, NL),
    decreases s.len(),
{
    if s.len() > 0 {
        lemma_ends_len(s.drop_last());
    }
}

/// Every one of the 256 byte values gets a notation of one to four visible
/// bytes, from which it is read back.
pub proof fn lemma_escape_round_trip(b: u8)
    ensures
        1 <= escape(b).len() <= 4,
        forall|j: int| 0 <= j < escape(b).len() ==> visible(#[trigger] escape(b)[j]),
        unescape(escape(b)) == Some(b),
{
    let e = escape(b);
    if b >= 128 {
        let c = (b - 128) as u8;
        assert(e.subrange(2, e.len() as int) =~= caret(c));
    }
}

/// The show-nonprinting stage writes only visible bytes.
pub proof fn lemma_show_nonprinting_visible(s: Seq<u8>)
    ensures
        forall|j: int| 0 <= j < nonprinting_shown(s).len() ==> visible(#[trigger] nonprinting_shown(s)[j]),
{
    let piece = |b: u8| escape(b);
    let p = |x: u8| visible(x);
    assert forall|b: u8, j: int| 0 <= j < piece(b).len() implies p(#[trigger] piece(b)[j]) by {
        lemma_escape_round_trip(b);
    }
    lemma_expand_all(s, piece, p);
}

proof fn lemma_prefix_congruent(a: Seq<Seq<char>>, b: Seq<Seq<char>>, c: Seq<Seq<char>>)
    requires
        parse_prefix(a) == parse_prefix(b),
    ensures
        parse_prefix(a + c) == parse_prefix(b + c),
    decreases c.len(),
{
    if c.len() == 0 {
        assert(a + c =~= a);
        assert(b + c =~= b);
    } else {
        lemma_prefix_congruent(a, b, c.drop_last());
        assert((a + c).drop_last() =~= a + c.drop_last());
        assert((b + c).drop_last() =~= b + c.drop_last());
    }
}

proof fn lemma_show_all_tokens()
    ensures
        reduce(seq!['-', 'A']) == Some(seq![Flag::ShowNonPrinting, Flag::ShowEnds, Flag::ShowTabs]),
        reduce(seq!['-', 'v']) == Some(seq![Flag::ShowNonPrinting]),
        reduce(seq!['-', 'E']) == Some(seq![Flag::ShowEnds]),
        reduce(seq!['-', 'T']) == Some(seq![Flag::ShowTabs]),
{
    reveal_strlit("-b");
    reveal_strlit("--number-nonblank");
    reveal_strlit("-E");
    reveal_strlit("--show-ends");
    reveal_strlit("-n");
    reveal_strlit("--number");
    reveal_strlit("-s");
    reveal_strlit("--squeeze-blank");
    reveal_strlit("-T");
    reveal_strlit("--show-tabs");
    reveal_strlit("-v");
    reveal_strlit("--show-nonprinting");
    reveal_strlit("-A");
    assert(seq!['-', 'A'] =~= "-A"@);
    assert(seq!['-', 'v'] =~= "-v"@);
    assert(seq!['-', 'E'] =~= "-E"@);
    assert(seq!['-', 'T'] =~= "-T"@);
}

/// The flag `-A` stands for `-v -E -T` together: in any command line,
/// putting the three arguments `-v`, `-E`, `-T` where `-A` was gives the
/// same flags, operands or error.
pub proof fn lemma_show_all_expands(pre: Seq<Seq<char>>, post: Seq<Seq<char>>)
    ensures
        parse_args(pre + seq!["-A"@] + post) == parse_args(
            pre + seq!["-v"@, "-E"@, "-T"@] + post,
        ),
{
    lemma_show_all_tokens();
    reveal_strlit("-A");
    reveal_strlit("-v");
    reveal_strlit("-E");
    reveal_strlit("-T");
    let a = pre + seq!["-A"@];
    let b = pre + seq!["-v"@, "-E"@, "-T"@];
    assert(a.drop_last() =~= pre);
    assert(b.drop_last().drop_last().drop_last() =~= pre);
    assert("-A"@.drop_first() =~= seq!['A']);
    assert("-v"@.drop_first() =~= seq!['v']);
    assert("-E"@.drop_first() =~= seq!['E']);
    assert("-T"@.drop_first() =~= seq!['T']);
    assert(seq!['A'].drop_last() =~= Seq::<char>::empty());
    assert(seq!['v'].drop_last() =~= Seq::<char>::empty());
    assert(seq!['E'].drop_last() =~= Seq::<char>::empty());
    assert(seq!['T'].drop_last() =~= Seq::<char>::empty());
    assert(Seq::<Flag>::empty() + seq![Flag::ShowNonPrinting, Flag::ShowEnds, Flag::ShowTabs]
        =~= seq![Flag::ShowNonPrinting, Flag::ShowEnds, Flag::ShowTabs]);
    assert(Seq::<Flag>::empty() + seq![Flag::ShowNonPrinting] =~= seq![Flag::ShowNonPrinting]);
    assert(Seq::<Flag>::empty() + seq![Flag::ShowEnds] =~= seq![Flag::ShowEnds]);
    assert(Seq::<Flag>::empty() + seq![Flag::ShowTabs] =~= seq![Flag::ShowTabs]);
    assert(short_flags(Seq::<char>::empty()) == Ok::<Seq<Flag>, char>(Seq::empty()));
    assert(seq!['A'].last() == 'A');
    assert(seq!['v'].last() == 'v');
    assert(seq!['E'].last() == 'E');
    assert(seq!['T'].last() == 'T');
    assert(short_flags(seq!['A']) == Ok::<Seq<Flag>, char>(
        seq![Flag::ShowNonPrinting, Flag::ShowEnds, Flag::ShowTabs],
    ));
    assert(short_flags(seq!['v']) == Ok::<Seq<Flag>, char>(seq![Flag::ShowNonPrinting]));
    assert(short_flags(seq!['E']) == Ok::<Seq<Flag>, char>(seq![Flag::ShowEnds]));
    assert(short_flags(seq!['T']) == Ok::<Seq<Flag>, char>(seq![Flag::ShowTabs]));
    let b1 = pre.push("-v"@);
    let b2 = b1.push("-E"@);
    assert(b =~= b2.push("-T"@));
    assert(b2.drop_last() =~= b1);
    assert(b1.drop_last() =~= pre);
    assert(b.drop_last() =~= b2);
    assert(a =~= pre.push("-A"@));
    assert(!is_long("-A"@) && is_short("-A"@));
    assert(!is_long("-v"@) && is_short("-v"@));
    assert(!is_long("-E"@) && is_short("-E"@));
    assert(!is_long("-T"@) && is_short("-T"@));
    assert(b1.last() == "-v"@ && b2.last() == "-E"@ && b.last() == "-T"@ && a.last() == "-A"@);
    match parse_prefix(pre) {
        Err(e) => {
            assert(parse_prefix(b1) == parse_prefix(pre));
            assert(parse_prefix(b2) == parse_prefix(pre));
        },
        Ok(p) => {
            assert(parse_prefix(b1)->Ok_0 == (p.0 + seq![Flag::ShowNonPrinting], p.1));
            assert(parse_prefix(b2)->Ok_0 == (
                p.0 + seq![Flag::ShowNonPrinting] + seq![Flag::ShowEnds],
                p.1,
            ));
            assert(p.0 + seq![Flag::ShowNonPrinting, Flag::ShowEnds, Flag::ShowTabs] =~= p.0 + seq![
                Flag::ShowNonPrinting,
            ] + seq![Flag::ShowEnds] + seq![Flag::ShowTabs]);
        },
    }
    assert(parse_prefix(a) == parse_prefix(b));
    lemma_prefix_congruent(a, b, post);
    assert(pre + seq!["-A"@] + post == a + post);
    assert(pre + seq!["-v"@, "-E"@, "-T"@] + post == b + post);
}

} // verus!
