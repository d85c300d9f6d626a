use vstd::prelude::*;

verus! {

/// One display behaviour that can be requested on the command line.
#[derive(PartialEq, Eq, Structural, Clone, Copy, Debug)]
pub enum Flag {
    NumberNonBlankLines,
    ShowEnds,
    NumberLines,
    SqueezeBlanks,
    ShowTabs,
    ShowNonPrinting,
    Help,
    Version,
}

/// Whether `flag` is among `flags`.
pub fn has_flag(flags: &Vec<Flag>, flag: Flag) -> (r: bool)
    ensures
        r == flags@.contains(flag),
{
    let n = flags.len();
    for i in 0..n
        invariant
            n == flags.len(),
            forall|j: int| 0 <= j < i ==> flags@[j] != flag,
    {
        if flags[i] == flag {
            return true;
        }
    }
    false
}

/// The characters of `s`, in order.
fn chars_of(s: &str) -> (r: Vec<char>)
    ensures
        r@ == s@,
{
    let mut out: Vec<char> = Vec::new();
    for c in it: s.chars()
        invariant
            it.seq() == s@,
            out@ == it.seq().subrange(0, it.index() as int),
    {
        out.push(c);
        assert(it.seq().subrange(0, it.index() + 1) == out@);
    }
    out
}

/// Whether the characters `t` spell the literal `lit`.
fn chars_are(t: &Vec<char>, lit: &str) -> (r: bool)
    ensures
        r == (t@ == lit@),
{
    let l = chars_of(lit);
    if t.len() != l.len() {
        return false;
    }
    let n = t.len();
    for i in 0..n
        invariant
            n == t.len(),
            n == l.len(),
            l@ == lit@,
            forall|j: int| 0 <= j < i ==> t@[j] == l@[j],
    {
        if t[i] != l[i] {
            return false;
        }
    }
    assert(t@ =~= l@);
    true
}

/// The base flags that a flag token stands for, or `None` for a token that
/// names no flag. `-A` stands for `-vET`, `-e` for `-vE` and `-t` for `-vT`.
pub open spec fn reduce(tok: Seq<char>) -> Option<Seq<Flag>> {
    if tok == "-b"@ || tok == "--number-nonblank"@ {
        Some(seq![Flag::NumberNonBlankLines])
    } else if tok == "-E"@ || tok == "--show-ends"@ {
        Some(seq![Flag::ShowEnds])
    } else if tok == "-n"@ || tok == "--number"@ {
        Some(seq![Flag::NumberLines])
    } else if tok == "-s"@ || tok == "--squeeze-blank"@ {
        Some(seq![Flag::SqueezeBlanks])
    } else if tok == "-T"@ || tok == "--show-tabs"@ {
        Some(seq![Flag::ShowTabs])
    } else if tok == "-v"@ || tok == "--show-nonprinting"@ {
        Some(seq![Flag::ShowNonPrinting])
    } else if tok == "-A"@ || tok == "--show-all"@ {
        Some(seq![Flag::ShowNonPrinting, Flag::ShowEnds, Flag::ShowTabs])
    } else if tok == "-e"@ {
        Some(seq![Flag::ShowNonPrinting, Flag::ShowEnds])
    } else if tok == "-t"@ {
        Some(seq![Flag::ShowNonPrinting, Flag::ShowTabs])
    } else if tok == "--help"@ {
        Some(seq![Flag::Help])
    } else if tok == "--version"@ {
        Some(seq![Flag::Version])
    } else {
        None
    }
}

fn one_flag(f: Flag) -> (r: Vec<Flag>)
    ensures
        r@ == seq![f],
{
    let mut v: Vec<Flag> = Vec::new();
    v.push(f);
    v
}

fn reduce_chars(t: &Vec<char>) -> (r: Option<Vec<Flag>>)
    ensures
        r is Some <==> reduce(t@) is Some,
        r is Some ==> r->0@ == reduce(t@)->0,
{
    if chars_are(t, "-b") || chars_are(t, "--number-nonblank") {
        Some(one_flag(Flag::NumberNonBlankLines))
    } else if chars_are(t, "-E") || chars_are(t, "--show-ends") {
        Some(one_flag(Flag::ShowEnds))
    } else if chars_are(t, "-n") || chars_are(t, "--number") {
        Some(one_flag(Flag::NumberLines))
    } else if chars_are(t, "-s") || chars_are(t, "--squeeze-blank") {
        Some(one_flag(Flag::SqueezeBlanks))
    } else if chars_are(t, "-T") || chars_are(t, "--show-tabs") {
        Some(one_flag(Flag::ShowTabs))
    } else if chars_are(t, "-v") || chars_are(t, "--show-nonprinting") {
        Some(one_flag(Flag::ShowNonPrinting))
    } else if chars_are(t, "-A") || chars_are(t, "--show-all") {
        let mut v = one_flag(Flag::ShowNonPrinting);
        v.push(Flag::ShowEnds);
        v.push(Flag::ShowTabs);
        assert(v@ =~= seq![Flag::ShowNonPrinting, Flag::ShowEnds, Flag::ShowTabs]);
        Some(v)
    } else if chars_are(t, "-e") {
        let mut v = one_flag(Flag::ShowNonPrinting);
        v.push(Flag::ShowEnds);
        assert(v@ =~= seq![Flag::ShowNonPrinting, Flag::ShowEnds]);
        Some(v)
    } else if chars_are(t, "-t") {
        let mut v = one_flag(Flag::ShowNonPrinting);
        v.push(Flag::ShowTabs);
        assert(v@ =~= seq![Flag::ShowNonPrinting, Flag::ShowTabs]);
        Some(v)
    } else if chars_are(t, "--help") {
        Some(one_flag(Flag::Help))
    } else if chars_are(t, "--version") {
        Some(one_flag(Flag::Version))
    } else {
        None
    }
}

impl Flag {
    /// The base flags that the token `f` stands for (see `reduce`), or
    /// `None` when it names no flag.
    pub fn f_reduce(f: &String) -> (r: Option<Vec<Flag>>)
        ensures
            r is Some <==> reduce(f@) is Some,
            r is Some ==> r->0@ == reduce(f@)->0,
    {
        reduce_chars(&chars_of(f.as_str()))
    }
}

/// The flags that the characters `cs` of a bundle of short flags stand for
/// (`vET` in `-vET`), in order, or the first character that names no flag.
pub open spec fn short_flags(cs: Seq<char>) -> Result<Seq<Flag>, char>
    decreases cs.len(),
{
    if cs.len() == 0 {
        Ok(Seq::empty())
    } else {
        match short_flags(cs.drop_last()) {
            Err(c) => Err(c),
            Ok(fs) => match reduce(seq!['-', cs.last()]) {
                Some(g) => Ok(fs + g),
                None => Err(cs.last()),
            },
        }
    }
}

/// Whether an argument is a long flag: it starts with `--`.
pub open spec fn is_long(a: Seq<char>) -> bool {
    a.len() >= 2 && a[0] == '-' && a[1] == '-'
}

/// Whether an argument is a bundle of short flags: it starts with a single
/// `-` and is not `-` alone.
pub open spec fn is_short(a: Seq<char>) -> bool {
    !is_long(a) && a.len() >= 2 && a[0] == '-'
}

/// The flags and operands read from the arguments `args`, in order, before
/// the default operand is added; or the first bad flag, as the character
/// that names no flag (for a short flag) and the argument that held it.
pub open spec fn parse_prefix(args: Seq<Seq<char>>) -> Result<
    (Seq<Flag>, Seq<Seq<char>>),
    (Option<char>, Seq<char>),
>
    decreases args.len(),
{
    if args.len() == 0 {
        Ok((Seq::empty(), Seq::empty()))
    } else {
        match parse_prefix(args.drop_last()) {
            Err(e) => Err(e),
            Ok(p) => {
                let a = args.last();
                if is_long(a) {
                    match reduce(a) {
                        Some(g) => Ok((p.0 + g, p.1)),
                        None => Err((None, a)),
                    }
                } else if is_short(a) {
                    match short_flags(a.drop_first()) {
                        Ok(g) => Ok((p.0 + g, p.1)),
                        Err(c) => Err((Some(c), a)),
                    }
                } else {
                    Ok((p.0, p.1.push(a)))
                }
            },
        }
    }
}

/// The flags and operands of a command line; with no operand the single
/// operand `-` (standard input) is used.
pub open spec fn parse_args(args: Seq<Seq<char>>) -> Result<
    (Seq<Flag>, Seq<Seq<char>>),
    (Option<char>, Seq<char>),
> {
    match parse_prefix(args) {
        Err(e) => Err(e),
        Ok(p) => Ok((p.0, if p.1.len() == 0 {
            seq!["-"@]
        } else {
            p.1
        })),
    }
}

/// The characters of each string.
pub open spec fn views_of(v: Seq<String>) -> Seq<Seq<char>> {
    v.map_values(|s: String| s@)
}

/// A flag on the command line that names no flag.
#[derive(Debug, PartialEq, Eq)]
pub enum ArgError {
    /// A long flag (`--...`) that is not known; holds the argument.
    UnknownFlag(String),
    /// A character of a short flag bundle that is not known, and the
    /// argument that held it.
    UnknownShortFlag(char, String),
}

impl ArgError {
    /// The bad character, for a short flag, and the argument.
    pub open spec fn fault(&self) -> (Option<char>, Seq<char>) {
        match self {
            ArgError::UnknownFlag(a) => (None, a@),
            ArgError::UnknownShortFlag(c, a) => (Some(*c), a@),
        }
    }
}

/// A parsed command line: the requested flags and the operands.
pub struct RatArgs {
    pub flags: Vec<Flag>,
    pub operands: Vec<String>,
}

impl RatArgs {
    /// Reads a command line (without the program name). An argument that
    /// starts with `--` is a long flag; `-` alone is the operand for
    /// standard input; another argument that starts with `-` is a bundle of
    /// short flags; anything else is an operand. Composite flags are
    /// expanded (see `reduce`). With no operand, `-` is used. The first
    /// argument that holds an unknown flag makes the whole command line fail.
    pub fn parse(clargs: Vec<String>) -> (r: Result<RatArgs, ArgError>)
        ensures
            r is Ok <==> parse_args(views_of(clargs@)) is Ok,
            r is Ok ==> parse_args(views_of(clargs@))->Ok_0 == (
                r->Ok_0.flags@,
                views_of(r->Ok_0.operands@),
            ),
            r is Err ==> parse_args(views_of(clargs@))->Err_0 == r->Err_0.fault(),
    {
        let mut flags: Vec<Flag> = Vec::new();
        let mut operands: Vec<String> = Vec::new();
        let n = clargs.len();
        let ghost va = views_of(clargs@);
        assert(va.subrange(0, 0) =~= Seq::<Seq<char>>::empty());
        assert(views_of(operands@) =~= Seq::<Seq<char>>::empty());
        for i in 0..n
            invariant
                n == clargs.len(),
                va == views_of(clargs@),
                va.len() == n,
                parse_prefix(va.subrange(0, i as int)) == Ok::<
                    (Seq<Flag>, Seq<Seq<char>>),
                    (Option<char>, Seq<char>),
                >((flags@, views_of(operands@))),
        {
            let arg = &clargs[i];
            let cs = chars_of(arg.as_str());
            let ghost pre = va.subrange(0, i as int);
            let ghost all = va.subrange(0, i + 1);
            assert(all.drop_last() =~= pre);
            assert(all.last() == cs@);
            let ghost fs0 = flags@;
            if cs.len() >= 2 && cs[0] == '-' && cs[1] == '-' {
                match reduce_chars(&cs) {
                    Some(g) => {
                        let mut g = g;
                        flags.append(&mut g);
                    },
                    None => {
                        proof {
                            lemma_prefix_err(va, i as int);
                        }
                        return Err(ArgError::UnknownFlag(arg.clone()));
                    },
                }
            } else if cs.len() >= 2 && cs[0] == '-' {
                let m = cs.len();
                assert(cs@.subrange(1, 1) =~= Seq::<char>::empty());
                assert(flags@.subrange(fs0.len() as int, flags@.len() as int) =~= Seq::<Flag>::empty());
                assert(flags@.subrange(0, fs0.len() as int) =~= fs0);
                for j in 1..m
                    invariant
                        m == cs.len(),
                        m >= 2,
                        cs@ == all.last(),
                        arg@ == cs@,
                        is_short(cs@),
                        va == views_of(clargs@),
                        va.len() == n,
                        i < n,
                        all == va.subrange(0, i + 1),
                        all.drop_last() == pre,
                        pre == va.subrange(0, i as int),
                        parse_prefix(pre) == Ok::<
                            (Seq<Flag>, Seq<Seq<char>>),
                            (Option<char>, Seq<char>),
                        >((fs0, views_of(operands@))),
                        short_flags(cs@.subrange(1, j as int)) == Ok::<Seq<Flag>, char>(
                            flags@.subrange(fs0.len() as int, flags@.len() as int),
                        ),
                        flags@.subrange(0, fs0.len() as int) == fs0,
                        flags@.len() >= fs0.len(),
                {
                    let mut tok: Vec<char> = Vec::new();
                    tok.push('-');
                    tok.push(cs[j]);
                    assert(tok@ =~= seq!['-', cs@[j as int]]);
                    assert(cs@.subrange(1, j + 1).drop_last() =~= cs@.subrange(1, j as int));
                    match reduce_chars(&tok) {
                        Some(g) => {
                            let ghost before = flags@;
                            let mut g = g;
                            flags.append(&mut g);
                            assert(flags@.subrange(fs0.len() as int, flags@.len() as int)
                                =~= before.subrange(fs0.len() as int, before.len() as int)
                                + reduce(tok@)->0);
                            assert(flags@.subrange(0, fs0.len() as int) =~= fs0);
                        },
                        None => {
                            proof {
                                assert(cs@.drop_first().subrange(0, j - 1) =~= cs@.subrange(1, j as int));
                                assert(cs@.drop_first()[j - 1] == cs@[j as int]);
                                lemma_short_err(cs@.drop_first(), (j - 1) as int);
                                lemma_prefix_err(va, i as int);
                            }
                            return Err(ArgError::UnknownShortFlag(cs[j], arg.clone()));
                        },
                    }
                }
                assert(cs@.subrange(1, m as int) =~= cs@.drop_first());
                assert(flags@ =~= fs0 + flags@.subrange(fs0.len() as int, flags@.len() as int));
            } else {
                let ghost ops0 = operands@;
                operands.push(arg.clone());
                assert(views_of(operands@) =~= views_of(ops0).push(cs@));
            }
            assert(parse_prefix(all) == Ok::<
                (Seq<Flag>, Seq<Seq<char>>),
                (Option<char>, Seq<char>),
            >((flags@, views_of(operands@))));
        }
        assert(va.subrange(0, n as int) =~= va);
        if operands.len() == 0 {
            let dash = "-".to_owned();
            operands.push(dash);
            assert(views_of(operands@) =~= seq!["-"@]);
        }
        Ok(RatArgs { flags, operands })
    }
}

/// Once a prefix of the arguments fails, the whole command line fails the
/// same way.
proof fn lemma_prefix_err(args: Seq<Seq<char>>, i: int)
    requires
        0 <= i < args.len(),
        parse_prefix(args.subrange(0, i + 1)) is Err,
    ensures
        parse_args(args) == parse_prefix(args.subrange(0, i + 1)),
    decreases args.len() - i,
{
    if i + 1 < args.len() {
        assert(args.subrange(0, i + 2).drop_last() =~= args.subrange(0, i + 1));
        lemma_prefix_err(args, i + 1);
    } else {
        assert(args.subrange(0, i + 1) =~= args);
    }
}

/// The first unknown character of a bundle decides how it fails.
proof fn lemma_short_err(cs: Seq<char>, k: int)
    requires
        0 <= k < cs.len(),
        short_flags(cs.subrange(0, k)) is Ok,
        reduce(seq!['-', cs[k]]) is None,
    ensures
        short_flags(cs) == Err::<Seq<Flag>, char>(cs[k]),
{
    lemma_short_err_from(cs, k, cs.len() as int);
    assert(cs.subrange(0, cs.len() as int) =~= cs);
}

proof fn lemma_short_err_from(cs: Seq<char>, k: int, m: int)
    requires
        0 <= k < m <= cs.len(),
        short_flags(cs.subrange(0, k)) is Ok,
        reduce(seq!['-', cs[k]]) is None,
    ensures
        short_flags(cs.subrange(0, m)) == Err::<Seq<Flag>, char>(cs[k]),
    decreases m - k,
{
    if m == k + 1 {
        assert(cs.subrange(0, m).drop_last() =~= cs.subrange(0, k));
    } else {
        lemma_short_err_from(cs, k, m - 1);
        assert(cs.subrange(0, m).drop_last() =~= cs.subrange(0, m - 1));
    }
}

} // verus!
