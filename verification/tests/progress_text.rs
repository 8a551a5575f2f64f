use rich_py::progress_text::{
    decimal_suffix_text, download_bytes_text, download_unit, elapsed_text, filesize_decimal,
    mofn_text, open_plan, pick_unit, remaining_text, ModeKind, OpenError, SizeText,
};

#[test]
fn open_accepts_reading_modes() {
    let p = open_plan("r", -1).unwrap();
    assert_eq!(p.kind, ModeKind::Text);
    assert!(p.text_wrapper);
    assert_eq!(p.buffering, -1);
    let p = open_plan("rt", 1).unwrap();
    assert!(p.line_buffering);
    assert_eq!(p.buffering, -1);
    assert!(p.text_wrapper);
    let p = open_plan("tr", 8192).unwrap();
    assert_eq!(p.kind, ModeKind::Text);
    assert!(!p.text_wrapper);
    assert_eq!(p.buffering, 8192);
    let p = open_plan("rb", 0).unwrap();
    assert_eq!(p.kind, ModeKind::Binary);
    assert_eq!(p.buffering, 0);
    assert!(!p.text_wrapper);
}

#[test]
fn open_warns_on_line_buffered_binary() {
    let p = open_plan("br", 1).unwrap();
    assert!(p.warn_line_buffering);
    assert!(p.line_buffering);
    assert_eq!(p.buffering, -1);
}

#[test]
fn open_refuses_other_modes_and_unbuffered_text() {
    assert_eq!(open_plan("w", -1), Err(OpenError::InvalidMode));
    assert_eq!(open_plan("rr", -1), Err(OpenError::InvalidMode));
    assert_eq!(open_plan("", -1), Err(OpenError::InvalidMode));
    assert_eq!(open_plan("rbt", -1), Err(OpenError::InvalidMode));
    assert_eq!(open_plan("r", 0), Err(OpenError::UnbufferedText));
}

#[test]
fn elapsed_text_is_a_timedelta() {
    assert_eq!(elapsed_text(None), "-:--:--");
    assert_eq!(elapsed_text(Some(0)), "0:00:00");
    assert_eq!(elapsed_text(Some(-5)), "0:00:00");
    assert_eq!(elapsed_text(Some(3661)), "1:01:01");
    assert_eq!(elapsed_text(Some(86400)), "1 day, 0:00:00");
    assert_eq!(elapsed_text(Some(2 * 86400 + 5)), "2 days, 0:00:05");
}

#[test]
fn remaining_text_formats() {
    assert_eq!(remaining_text(false, Some(5), false), "");
    assert_eq!(remaining_text(true, None, true), "--:--");
    assert_eq!(remaining_text(true, None, false), "-:--:--");
    assert_eq!(remaining_text(true, Some(125), true), "02:05");
    assert_eq!(remaining_text(true, Some(125), false), "0:02:05");
    assert_eq!(remaining_text(true, Some(3725), true), "1:02:05");
    assert_eq!(remaining_text(true, Some(-5), false), "-1:59:55");
}

#[test]
fn mofn_right_aligns_the_count() {
    assert_eq!(mofn_text(5, Some(100), "/"), "  5/100");
    assert_eq!(mofn_text(5, None, "/"), "5/?");
    assert_eq!(mofn_text(-3, Some(10), " of "), "-3 of 10");
    assert_eq!(mofn_text(1234, Some(10), "/"), "1234/10");
}

fn exact(t: SizeText) -> String {
    match t {
        SizeText::Exact(s) => s,
        SizeText::Scaled { .. } => panic!("expected an exact size"),
    }
}

#[test]
fn filesize_counts_bytes() {
    assert_eq!(exact(filesize_decimal(1)), "1 byte");
    assert_eq!(exact(filesize_decimal(0)), "0 bytes");
    assert_eq!(exact(filesize_decimal(999)), "999 bytes");
    assert_eq!(exact(filesize_decimal(-1234)), "-1,234 bytes");
}

#[test]
fn filesize_picks_the_unit() {
    match filesize_decimal(1000) {
        SizeText::Scaled { unit, suffix } => {
            assert_eq!(unit, 1_000_000);
            assert_eq!(suffix, "kB");
        }
        SizeText::Exact(_) => panic!("expected a scaled size"),
    }
    match filesize_decimal(1_500_000) {
        SizeText::Scaled { unit, suffix } => {
            assert_eq!(unit, 1_000_000_000);
            assert_eq!(suffix, "MB");
        }
        SizeText::Exact(_) => panic!("expected a scaled size"),
    }
    match filesize_decimal(i64::MAX) {
        SizeText::Scaled { unit, suffix } => {
            assert_eq!(unit, 1_000_000_000_000_000_000_000);
            assert_eq!(suffix, "EB");
        }
        SizeText::Exact(_) => panic!("expected a scaled size"),
    }
}

#[test]
fn pick_unit_and_suffix_steps() {
    assert_eq!(pick_unit(500, 9, 1000), (1, 0));
    assert_eq!(pick_unit(1023, 9, 1024), (1, 0));
    assert_eq!(pick_unit(1024, 9, 1024), (1024, 1));
    assert_eq!(pick_unit(-7, 9, 1000), (1, 0));
    assert_eq!(pick_unit(2_000_000, 5, 1000), (1_000_000, 2));
    assert_eq!(pick_unit(i64::MAX, 3, 1000), (1_000_000, 2));
    assert_eq!(decimal_suffix_text(7), "YB");
}

#[test]
fn download_uses_the_total_for_the_unit() {
    assert_eq!(download_unit(5, Some(2048), true), (1024, 1));
    assert_eq!(download_unit(5000, None, false), (1000, 1));
    assert_eq!(download_unit(5, Some(900), false), (1, 0));
    assert_eq!(download_bytes_text(512, Some(900)), "512/900 bytes");
    assert_eq!(download_bytes_text(1500, None), "1,500/? bytes");
}
