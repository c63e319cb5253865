use avcscope::layout::bands_around;
use avcscope::layout::centered_rect;
use avcscope::layout::layout;
use avcscope::layout::place;
use avcscope::layout::Constraint;
use avcscope::layout::Rect;
use avcscope::state::Mode;

const SCREEN: Rect = Rect { x: 0, y: 0, width: 100, height: 50 };

fn rect(x: u16, y: u16, width: u16, height: u16) -> Rect {
    Rect { x, y, width, height }
}

fn inside(r: Rect, area: Rect) -> bool {
    r.x >= area.x
        && r.y >= area.y
        && r.x as u32 + r.width as u32 <= area.x as u32 + area.width as u32
        && r.y as u32 + r.height as u32 <= area.y as u32 + area.height as u32
}

#[test]
fn bands_leave_equal_margins() {
    assert_eq!(
        bands_around(64),
        vec![Constraint::Percentage(18), Constraint::Percentage(64), Constraint::Percentage(18)]
    );
    assert_eq!(bands_around(81)[0], Constraint::Percentage(9));
    assert_eq!(bands_around(100)[2], Constraint::Percentage(0));
}

#[test]
fn the_middle_of_an_area() {
    assert_eq!(centered_rect(64, 80, SCREEN), rect(18, 5, 64, 40));
    assert_eq!(centered_rect(100, 100, SCREEN), SCREEN);
    for (w, h) in [(0, 0), (1, 1), (3, 7), (80, 24), (65535, 2)] {
        let area = rect(0, 0, w, h);
        assert!(inside(centered_rect(64, 80, area), area));
    }
}

#[test]
fn the_parts_of_the_screen() {
    let a = layout(Mode::Normal, SCREEN);
    assert_eq!(a.header, rect(0, 0, 100, 3));
    assert_eq!(a.list, rect(0, 3, 100, 46));
    assert_eq!(a.footer, rect(0, 49, 100, 1));
    assert_eq!((a.detail, a.help), (None, None));
}

#[test]
fn the_detail_stands_beside_the_list() {
    let a = layout(Mode::Detail, SCREEN);
    assert_eq!(a.list, rect(0, 3, 46, 46));
    assert_eq!(a.detail, Some(rect(46, 3, 54, 46)));
    assert_eq!(a.help, None);
}

#[test]
fn the_help_stands_in_the_middle() {
    let a = layout(Mode::Help, SCREEN);
    assert_eq!(a.help, Some(rect(18, 5, 64, 40)));
    assert_eq!((a.list, a.detail), (rect(0, 3, 100, 46), None));
}

#[test]
fn a_small_screen_holds_every_part() {
    for h in 0..6 {
        let screen = rect(2, 3, 4, h);
        for mode in [Mode::Normal, Mode::Detail, Mode::Search, Mode::Command, Mode::Help] {
            let a = layout(mode, screen);
            assert!(inside(a.header, screen) && inside(a.list, screen) && inside(a.footer, screen));
            assert!(a.detail.map_or(true, |r| inside(r, screen)));
            assert!(a.help.map_or(true, |r| inside(r, screen)));
        }
    }
}

#[test]
fn parts_are_placed_in_rows_and_columns() {
    let rows = vec![rect(0, 0, 50, 1), rect(0, 1, 50, 2), rect(0, 3, 50, 4)];
    let a = place(Mode::Search, SCREEN, &rows);
    assert_eq!((a.header, a.list, a.detail, a.footer, a.help), (rows[0], rows[1], None, rows[2], None));
    let a = place(Mode::Detail, SCREEN, &rows);
    assert_eq!((a.list, a.detail, a.help), (rect(0, 1, 23, 2), Some(rect(23, 1, 27, 2)), None));
    let a = place(Mode::Help, SCREEN, &rows);
    assert_eq!((a.list, a.help), (rows[1], Some(rect(18, 5, 64, 40))));
}

fn part_way(start: u16, extent: u16, percent: u16) -> u16 {
    ((100 * start as u64 + extent as u64 * percent as u64 + 50) / 100) as u16
}

#[test]
fn the_middle_has_its_share_of_any_area() {
    for start in [0, 3, 100] {
        for extent in [0, 1, 2, 3, 5, 7, 24, 50, 79, 80, 133, 200, 1001, 65000] {
            let area = rect(start, start, extent, extent);
            for percent in 0..=100 {
                let margin = (100 - percent) / 2;
                let near = part_way(start, extent, margin);
                let far = part_way(start, extent, margin + percent);
                assert_eq!(
                    centered_rect(percent, percent, area),
                    rect(near, near, far - near, far - near),
                    "{start} {extent} {percent}"
                );
            }
        }
    }
}

#[test]
fn rows_and_columns_of_any_screen() {
    for start in [0, 3, 100] {
        for extent in (5..300).chain([1000, 32767, 32768, 65435]) {
            let screen = rect(start, start, extent, extent);
            let a = layout(Mode::Detail, screen);
            let edge = part_way(start, extent, 46);
            assert_eq!(a.header, rect(start, start, extent, 3));
            assert_eq!(a.list, rect(start, start + 3, edge - start, extent - 4));
            assert_eq!(a.detail, Some(rect(edge, start + 3, start + extent - edge, extent - 4)));
            assert_eq!(a.footer, rect(start, start + extent - 1, extent, 1));
        }
    }
}

#[test]
fn an_area_past_the_last_cell_is_cut_off_there() {
    let area = rect(65000, 0, 1000, 10);
    let r = centered_rect(50, 100, area);
    assert_eq!((r.x, r.width), (65134, 267));
}

#[test]
fn a_small_screen_is_squeezed() {
    for start in [0, 3, 777] {
        for (height, header, footer) in [(1, 0, 0), (3, 1, 1), (4, 2, 1)] {
            let a = layout(Mode::Normal, rect(start, start, 40, height));
            assert_eq!(a.header, rect(start, start, 40, header));
            assert_eq!(a.list, rect(start, start + header, 40, 1));
            assert_eq!(a.footer, rect(start, start + header + 1, 40, footer));
        }
    }
}
