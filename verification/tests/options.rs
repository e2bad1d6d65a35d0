//! UI option set tests, and the value conversions.
use nvim_rs::model::IntoVal;
use nvim_rs::unpack::TryUnpack;
use nvim_rs::uioptions::{UiAttachOptions, UiOption};
use nvim_rs::value::WireValue;

#[test]
fn test_ui_options() {
    let mut opts = UiAttachOptions::new();
    opts.set_rgb(true);
    opts.set_rgb(false);
    opts.set_popupmenu_external(true);
    let value_map = opts.to_value_map();

    assert_eq!(
        WireValue::Dict(vec![
            (WireValue::Str(b"rgb".to_vec()), WireValue::Bool(false)),
            (
                WireValue::Str(b"ext_popupmenu".to_vec()),
                WireValue::Bool(true)
            ),
        ]),
        value_map
    );
}

#[test]
fn option_names_and_payloads() {
    let mut opts = UiAttachOptions::new();
    opts.set_term_name(b"xterm-256color".to_vec());
    opts.set_term_colors(256);
    opts.set_linegrid_external(true);
    opts.set_option(UiOption::StdinFd(3));
    let value_map = opts.to_value_map();

    assert_eq!(
        WireValue::Dict(vec![
            (
                WireValue::Str(b"term_name".to_vec()),
                WireValue::Str(b"xterm-256color".to_vec())
            ),
            (
                WireValue::Str(b"term_colors".to_vec()),
                WireValue::Uint(256)
            ),
            (
                WireValue::Str(b"ext_linegrid".to_vec()),
                WireValue::Bool(true)
            ),
            (WireValue::Str(b"stdin_fd".to_vec()), WireValue::Uint(3)),
        ]),
        value_map
    );
}

#[test]
fn replacing_keeps_position() {
    let mut opts = UiAttachOptions::new();
    opts.set_rgb(true);
    opts.set_tabline_external(true);
    opts.set_rgb(false);
    let value_map = opts.to_value_map();

    assert_eq!(
        WireValue::Dict(vec![
            (WireValue::Str(b"rgb".to_vec()), WireValue::Bool(false)),
            (
                WireValue::Str(b"ext_tabline".to_vec()),
                WireValue::Bool(true)
            ),
        ]),
        value_map
    );
}

#[test]
fn into_val_conversions() {
    assert_eq!(WireValue::Bool(true), true.into_val());
    assert_eq!(WireValue::Uint(7), 7i64.into_val());
    assert_eq!(WireValue::Nint(-7), (-7i64).into_val());
    assert_eq!(WireValue::Uint(9), 9u64.into_val());
    assert_eq!(WireValue::Str(b"hi".to_vec()), b"hi".to_vec().into_val());
    let arr: Vec<WireValue> = vec![WireValue::Nil];
    assert_eq!(WireValue::Array(vec![WireValue::Nil]), arr.into_val());
    assert_eq!(
        WireValue::Array(vec![WireValue::Uint(2), WireValue::Nint(-4)]),
        nvim_rs::model::pair_val((2i64, -4i64))
    );
    let same = WireValue::F64(0.5f64.to_bits());
    assert_eq!(WireValue::F64(0.5f64.to_bits()), same.into_val());
    let map: Vec<(WireValue, WireValue)> = vec![(WireValue::Uint(1), WireValue::Nil)];
    assert_eq!(
        WireValue::Dict(vec![(WireValue::Uint(1), WireValue::Nil)]),
        map.into_val()
    );
}

#[test]
fn try_unpack_conversions() {
    let ok: Result<(), WireValue> = WireValue::Nil.try_unpack();
    assert_eq!(Ok(()), ok);
    let back: Result<(), WireValue> = WireValue::Uint(1).try_unpack();
    assert_eq!(Err(WireValue::Uint(1)), back);

    let s: Result<Vec<u8>, WireValue> = WireValue::Str(b"hoodle".to_vec()).try_unpack();
    assert_eq!(Ok(b"hoodle".to_vec()), s);

    let b: Result<bool, WireValue> = WireValue::Bool(true).try_unpack();
    assert_eq!(Ok(true), b);

    let i: Result<i64, WireValue> = WireValue::Nint(-5).try_unpack();
    assert_eq!(Ok(-5), i);
    let i: Result<i64, WireValue> = WireValue::Uint(5).try_unpack();
    assert_eq!(Ok(5), i);
    let too_big: Result<i64, WireValue> = WireValue::Uint(u64::MAX).try_unpack();
    assert_eq!(Err(WireValue::Uint(u64::MAX)), too_big);

    let u: Result<u64, WireValue> = WireValue::Uint(5).try_unpack();
    assert_eq!(Ok(5), u);

    let a: Result<Vec<WireValue>, WireValue> =
        WireValue::Array(vec![WireValue::Nil]).try_unpack();
    assert_eq!(Ok(vec![WireValue::Nil]), a);

    let m: Result<Vec<(WireValue, WireValue)>, WireValue> =
        WireValue::Dict(vec![(WireValue::Nil, WireValue::Nil)]).try_unpack();
    assert_eq!(Ok(vec![(WireValue::Nil, WireValue::Nil)]), m);

    let v: Result<WireValue, WireValue> = WireValue::Uint(3).try_unpack();
    assert_eq!(Ok(WireValue::Uint(3)), v);
}
