use rat::args::Flag;
use rat::transform::{
    apply_flag_formatting, number_lines, number_nonblank_lines, show_ends, show_nonprinting,
    show_tabs, squeeze_blanks,
};

fn run(text: &[u8], flags: &[Flag]) -> Vec<u8> {
    let mut s = text.to_vec();
    apply_flag_formatting(&mut s, &flags.to_vec());
    s
}

#[test]
fn no_flags_is_identity() {
    let text = b"a\tb\n\n\n\x01\xff end";
    assert_eq!(run(text, &[]), text.to_vec());
    assert_eq!(run(text, &[Flag::Help, Flag::Version]), text.to_vec());
    assert_eq!(run(b"", &[]), Vec::<u8>::new());
}

#[test]
fn show_tabs_replaces_each_tab() {
    assert_eq!(show_tabs(&b"\ta\t\tb".to_vec()), b"^Ia^I^Ib".to_vec());
    assert_eq!(run(b"x\ty\n", &[Flag::ShowTabs]), b"x^Iy\n".to_vec());
}

#[test]
fn show_tabs_twice_is_once() {
    let once = show_tabs(&b"a\tb".to_vec());
    assert_eq!(show_tabs(&once), once);
    assert_eq!(show_tabs(&b"no tabs".to_vec()), b"no tabs".to_vec());
}

#[test]
fn squeeze_keeps_one_blank_line() {
    assert_eq!(squeeze_blanks(&b"a\n\n\n\nb\n".to_vec()), b"a\n\nb\n".to_vec());
    assert_eq!(squeeze_blanks(&b"a\n\nb\n".to_vec()), b"a\n\nb\n".to_vec());
    assert_eq!(squeeze_blanks(&b"\n\n\na\n".to_vec()), b"\na\n".to_vec());
    assert_eq!(squeeze_blanks(&b"a\n\n\n".to_vec()), b"a\n\n".to_vec());
}

#[test]
fn squeeze_without_line_feeds() {
    assert_eq!(squeeze_blanks(&Vec::new()), Vec::<u8>::new());
    assert_eq!(squeeze_blanks(&b"abc".to_vec()), b"abc".to_vec());
}

#[test]
fn squeeze_twice_is_once() {
    let once = squeeze_blanks(&b"\n\n\nx\n\n\n\ny\n\n".to_vec());
    assert_eq!(once, b"\nx\n\ny\n\n".to_vec());
    assert_eq!(squeeze_blanks(&once), once);
}

#[test]
fn show_ends_marks_each_line_feed() {
    let out = show_ends(&b"a\n\nb$\nc".to_vec());
    assert_eq!(out, b"a$\n$\nb$$\nc".to_vec());
    let dollars = out.iter().filter(|&&b| b == b'$').count();
    assert_eq!(dollars, 1 + 3);
}

#[test]
fn nonprinting_all_bytes() {
    let expected: Vec<&[u8]> = vec![b"^@", b"^A", b"^[", b"^_", b" ", b"~", b"^?"];
    let inputs: [u8; 7] = [0x00, 0x01, 0x1B, 0x1F, 0x20, 0x7E, 0x7F];
    for (b, e) in inputs.iter().zip(expected) {
        assert_eq!(show_nonprinting(&vec![*b]), e.to_vec());
    }
    assert_eq!(show_nonprinting(&vec![0x09, 0x0A]), vec![0x09, 0x0A]);
    assert_eq!(show_nonprinting(&vec![0x80]), b"M-^@".to_vec());
    assert_eq!(show_nonprinting(&vec![0x89]), b"M-^I".to_vec());
    assert_eq!(show_nonprinting(&vec![0x8A]), b"M-^J".to_vec());
    assert_eq!(show_nonprinting(&vec![0xC1]), b"M-A".to_vec());
    assert_eq!(show_nonprinting(&vec![0xFF]), b"M-^?".to_vec());
    assert_eq!(show_nonprinting(&vec![0xA0]), b"M- ".to_vec());
    for b in 0u16..256 {
        let out = show_nonprinting(&vec![b as u8]);
        assert!(!out.is_empty() && out.len() <= 4);
        assert!(out.iter().all(|&x| (0x20..0x7F).contains(&x) || x == 9 || x == 10));
    }
}

#[test]
fn nonprinting_utf8_text() {
    assert_eq!(run("é\n".as_bytes(), &[Flag::ShowNonPrinting]), b"M-CM-)\n".to_vec());
}

#[test]
fn nonblank_numbering_with_ends() {
    assert_eq!(show_ends(&b"a\n\nb\n".to_vec()), b"a$\n$\nb$\n".to_vec());
    let out = run(b"a\n\nb\n", &[Flag::NumberNonBlankLines, Flag::ShowEnds]);
    assert_eq!(out, b"     1\ta$\n$\n     2\tb$\n".to_vec());
}

#[test]
fn number_lines_alone() {
    let out = run(b"a\nb\nc\n", &[Flag::NumberLines]);
    assert_eq!(out, b"     1\ta\n     2\tb\n     3\tc\n".to_vec());
}

#[test]
fn nonblank_overrides_number() {
    let text = b"a\n\nb\n\n\nc";
    let both = run(text, &[Flag::NumberLines, Flag::NumberNonBlankLines]);
    let alone = run(text, &[Flag::NumberNonBlankLines]);
    assert_eq!(both, alone);
    assert_eq!(alone, b"     1\ta\n\n     2\tb\n\n\n     3\tc\n".to_vec());
}

#[test]
fn number_lines_counts_marker_lines() {
    let out = run(b"a\n\nb\n", &[Flag::NumberLines, Flag::ShowEnds]);
    assert_eq!(out, b"     1\ta$\n     2\t$\n     3\tb$\n".to_vec());
}

#[test]
fn nonblank_numbers_dollar_line_without_ends() {
    assert_eq!(number_nonblank_lines(&b"$\n\n".to_vec(), false), b"     1\t$\n\n".to_vec());
    assert_eq!(number_nonblank_lines(&b"$\n\n".to_vec(), true), b"$\n\n".to_vec());
}

#[test]
fn numbering_wide_numbers() {
    let mut text = Vec::new();
    for _ in 0..1_000_000 {
        text.push(b'\n');
    }
    text.push(b'x');
    let out = number_lines(&text);
    assert!(out.starts_with(b"     1\t\n     2\t\n"));
    assert!(out.ends_with(b"999999\t\n1000000\t\n1000001\tx\n"));
    let nb = number_nonblank_lines(&b"a\nb\nc\nd\ne\nf\ng\nh\ni\nj\n".to_vec(), false);
    assert!(nb.ends_with(b"     9\ti\n    10\tj\n"));
}

#[test]
fn numbering_last_line_without_line_feed() {
    assert_eq!(number_lines(&b"a".to_vec()), b"     1\ta\n".to_vec());
    assert_eq!(number_lines(&Vec::new()), Vec::<u8>::new());
    assert_eq!(number_nonblank_lines(&b"\n".to_vec(), false), b"\n".to_vec());
}

#[test]
fn full_pipeline_order() {
    let out = run(
        b"\ta\n\n\n\x7f\n",
        &[Flag::ShowTabs, Flag::SqueezeBlanks, Flag::ShowEnds, Flag::ShowNonPrinting, Flag::NumberLines],
    );
    assert_eq!(out, b"     1\t^Ia$\n     2\t$\n     3\t^?$\n".to_vec());
}
