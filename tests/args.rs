use rat::args::{ArgError, Flag, RatArgs};

fn strings(v: &[&str]) -> Vec<String> {
    v.iter().map(|s| s.to_string()).collect()
}

#[test]
fn show_all_expands_like_v_e_t() {
    let a = RatArgs::parse(strings(&["-A"])).unwrap();
    let b = RatArgs::parse(strings(&["-v", "-E", "-T"])).unwrap();
    assert_eq!(a.flags, b.flags);
    assert_eq!(a.flags, vec![Flag::ShowNonPrinting, Flag::ShowEnds, Flag::ShowTabs]);
    let c = RatArgs::parse(strings(&["--show-all"])).unwrap();
    assert_eq!(c.flags, a.flags);
    let d = RatArgs::parse(strings(&["-vET"])).unwrap();
    assert_eq!(d.flags, a.flags);
}

#[test]
fn f_reduce_table() {
    let r = |s: &str| Flag::f_reduce(&s.to_string());
    assert_eq!(r("-b"), Some(vec![Flag::NumberNonBlankLines]));
    assert_eq!(r("--number-nonblank"), Some(vec![Flag::NumberNonBlankLines]));
    assert_eq!(r("-E"), Some(vec![Flag::ShowEnds]));
    assert_eq!(r("--show-ends"), Some(vec![Flag::ShowEnds]));
    assert_eq!(r("-n"), Some(vec![Flag::NumberLines]));
    assert_eq!(r("--number"), Some(vec![Flag::NumberLines]));
    assert_eq!(r("-s"), Some(vec![Flag::SqueezeBlanks]));
    assert_eq!(r("--squeeze-blank"), Some(vec![Flag::SqueezeBlanks]));
    assert_eq!(r("-T"), Some(vec![Flag::ShowTabs]));
    assert_eq!(r("--show-tabs"), Some(vec![Flag::ShowTabs]));
    assert_eq!(r("-v"), Some(vec![Flag::ShowNonPrinting]));
    assert_eq!(r("--show-nonprinting"), Some(vec![Flag::ShowNonPrinting]));
    assert_eq!(r("-e"), Some(vec![Flag::ShowNonPrinting, Flag::ShowEnds]));
    assert_eq!(r("-t"), Some(vec![Flag::ShowNonPrinting, Flag::ShowTabs]));
    assert_eq!(r("--help"), Some(vec![Flag::Help]));
    assert_eq!(r("--version"), Some(vec![Flag::Version]));
    assert_eq!(r("-Z"), None);
    assert_eq!(r("--nope"), None);
    assert_eq!(r("-bb"), None);
}

#[test]
fn unknown_short_flag_fails() {
    let e = RatArgs::parse(strings(&["-Z"])).err().unwrap();
    assert_eq!(e, ArgError::UnknownShortFlag('Z', "-Z".to_string()));
    let e = RatArgs::parse(strings(&["-n", "file", "-bZv"])).err().unwrap();
    assert_eq!(e, ArgError::UnknownShortFlag('Z', "-bZv".to_string()));
}

#[test]
fn unknown_long_flag_fails() {
    let e = RatArgs::parse(strings(&["--zzz", "-Q"])).err().unwrap();
    assert_eq!(e, ArgError::UnknownFlag("--zzz".to_string()));
    let e = RatArgs::parse(strings(&["--"])).err().unwrap();
    assert_eq!(e, ArgError::UnknownFlag("--".to_string()));
}

#[test]
fn operands_and_default() {
    let a = RatArgs::parse(strings(&[])).unwrap();
    assert!(a.flags.is_empty());
    assert_eq!(a.operands, strings(&["-"]));
    let b = RatArgs::parse(strings(&["f", "-", "-n", "g"])).unwrap();
    assert_eq!(b.flags, vec![Flag::NumberLines]);
    assert_eq!(b.operands, strings(&["f", "-", "g"]));
    let c = RatArgs::parse(strings(&["-sn", "--help"])).unwrap();
    assert_eq!(c.flags, vec![Flag::SqueezeBlanks, Flag::NumberLines, Flag::Help]);
    assert_eq!(c.operands, strings(&["-"]));
}
