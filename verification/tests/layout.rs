use direnv_instant::layout::{build_separator, pane_rows_for_height, SplitConfig};
use direnv_instant::winsize::{get_winsize, set_winsize, WinSize};

#[test]
fn tmux_like_proportions() {
    let config = SplitConfig::tmux_like(7);
    assert_eq!(config.min_pane_rows, 2);
    assert_eq!(config.max_pane_rows, 10);
    assert_eq!(config.preferred_pane_rows, 10);
    assert_eq!(config.min_top_rows, 22);
    assert_eq!(config.cursor_row, Some(7));
    let config = SplitConfig::tmux_like_current_row();
    assert_eq!(config.min_top_rows, 22);
    assert_eq!(config.cursor_row, None);
}

#[test]
fn pane_grows_no_faster_than_the_terminal() {
    let config = SplitConfig::tmux_like_current_row();
    for (a, b) in [(0, 24), (24, 26), (20, 28), (25, 40), (32, 65535)] {
        let (low, high) = (pane_rows_for_height(a, config), pane_rows_for_height(b, config));
        assert!(low <= high && high - low <= b - a);
    }
    assert_eq!(pane_rows_for_height(26, config) - pane_rows_for_height(24, config), 2);
}

#[test]
fn heights_of_the_pane() {
    let config = SplitConfig::tmux_like_current_row();
    for (total, pane) in [(0, 2), (22, 2), (24, 2), (25, 3), (31, 9), (32, 10), (40, 10), (65535, 10)] {
        assert_eq!(pane_rows_for_height(total, config), pane);
    }
    let odd = SplitConfig {
        min_pane_rows: 3,
        max_pane_rows: 5,
        preferred_pane_rows: 9,
        min_top_rows: 10,
        cursor_row: None,
    };
    assert_eq!(pane_rows_for_height(10, odd), 3);
    assert_eq!(pane_rows_for_height(14, odd), 4);
    assert_eq!(pane_rows_for_height(30, odd), 5);
}

#[test]
fn shell_keeps_its_rows() {
    let config = SplitConfig::tmux_like_current_row();
    for total in 24..200 {
        assert!(total - pane_rows_for_height(total, config) >= 22);
        assert!(pane_rows_for_height(total, config) <= pane_rows_for_height(total + 1, config));
    }
}

#[test]
fn separator_is_as_wide_as_the_terminal() {
    assert_eq!(build_separator(0), Vec::<u8>::new());
    assert_eq!(build_separator(1), "─".as_bytes().to_vec());
    assert_eq!(build_separator(80), "─".repeat(80).into_bytes());
}

#[test]
fn sizes_told_and_asked() {
    let request = set_winsize(10, 80);
    assert_eq!(
        request,
        WinSize {
            rows: 10,
            cols: 80,
            x_pixels: 0,
            y_pixels: 0
        }
    );
    assert_eq!(get_winsize(0, request), Some((10, 80)));
    assert_eq!(get_winsize(-1, request), None);
}
